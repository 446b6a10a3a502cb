//! The cross-repository survey behind `handup`: grouping todo markers by
//! repository, merging the handoffs found in each repository into one
//! project, ordering the projects by urgency and recommending where to
//! work next.

use vstd::prelude::*;

use crate::items::{inferred_priority_spec, ov};
use crate::model::{HandoffItem, HandupItem, HandupProject, HandupRecommendation, HandupReport};
use crate::paths::{file_name, file_name_of};
use crate::text::{
    dec, insert_sorted_unique, lemma_seq_lt_trans, lemma_seq_lt_trichotomy, owned, push_decimal,
    seq_lt, str_eq, str_lt, strictly_sorted, sv,
};

verus! {

/// A todo marker (`TODO:`, `FIXME:`, `HACK:`, `XXX:`) found in a source file.
#[derive(Debug, Clone, PartialEq, Eq)]
pub struct TodoMarker {
    pub path: String,
    pub line: usize,
    pub text: String,
}

/// A handoff file found by a survey, with its repository and active items.
#[derive(Debug)]
pub struct SurveyHandoff {
    pub path: String,
    pub repo_root: String,
    pub project_name: String,
    pub branch: Option<String>,
    pub build: Option<String>,
    pub tests: Option<String>,
    pub items: Vec<HandoffItem>,
}

/// An item of a surveyed project as plain values: id, priority, status, title.
pub type ItemView = (Seq<char>, Seq<char>, Seq<char>, Seq<char>);

/// A surveyed project as plain values.
pub struct ProjectView {
    pub name: Seq<char>,
    pub path: Seq<char>,
    pub repo_root: Seq<char>,
    pub handoff_path: Option<Seq<char>>,
    pub branch: Option<Seq<char>>,
    pub build: Option<Seq<char>>,
    pub tests: Option<Seq<char>>,
    pub items: Seq<ItemView>,
    pub todos: Seq<Seq<char>>,
}

pub open spec fn item_view(i: HandupItem) -> ItemView {
    (i.id@, i.priority@, i.status@, i.title@)
}

pub open spec fn item_views(s: Seq<HandupItem>) -> Seq<ItemView> {
    s.map_values(|i: HandupItem| item_view(i))
}

pub open spec fn project_view(p: HandupProject) -> ProjectView {
    ProjectView {
        name: p.name@,
        path: p.path@,
        repo_root: p.repo_root@,
        handoff_path: ov(p.handoff_path),
        branch: ov(p.branch),
        build: ov(p.build),
        tests: ov(p.tests),
        items: item_views(p.items@),
        todos: sv(p.todos@),
    }
}

pub open spec fn project_views(s: Seq<HandupProject>) -> Seq<ProjectView> {
    s.map_values(|p: HandupProject| project_view(p))
}

/// How a survey lists a handoff item: its id, its (inferred) priority, its
/// status (`open` when unset) and its title.
pub open spec fn survey_item(item: HandoffItem) -> ItemView {
    (
        item.id@,
        inferred_priority_spec(item),
        match ov(item.status) {
            Some(s) => s,
            None => "open"@,
        },
        item.title@,
    )
}

/// The line that reports a marker: `path:line  text`.
pub open spec fn marker_line(m: TodoMarker) -> Seq<char> {
    m.path@ + ":"@ + dec(m.line as nat) + "  "@ + m.text@
}

/// The lines of the markers found in repository `root`, in order.
pub open spec fn root_lines(ms: Seq<(String, TodoMarker)>, root: Seq<char>) -> Seq<Seq<char>>
    decreases ms.len(),
{
    if ms.len() == 0 {
        Seq::empty()
    } else if ms.last().0@ == root {
        root_lines(ms.drop_last(), root).push(marker_line(ms.last().1))
    } else {
        root_lines(ms.drop_last(), root)
    }
}

/// The repositories the markers were found in.
pub open spec fn marker_roots(ms: Seq<(String, TodoMarker)>) -> Seq<Seq<char>> {
    ms.map_values(|p: (String, TodoMarker)| p.0@)
}

/// The repositories the handoffs were found in.
pub open spec fn survey_roots(ss: Seq<SurveyHandoff>) -> Seq<Seq<char>> {
    ss.map_values(|s: SurveyHandoff| s.repo_root@)
}

/// `g` groups the marker lines by repository: one group per repository,
/// ordered by repository, each with its lines in marker order.
pub open spec fn marker_groups_ok(ms: Seq<(String, TodoMarker)>, g: Seq<(Seq<char>, Seq<Seq<char>>)>) -> bool {
    &&& strictly_sorted(g.map_values(|p: (Seq<char>, Seq<Seq<char>>)| p.0))
    &&& forall|k: int| 0 <= k < g.len() ==> (#[trigger] g[k]).1 == root_lines(ms, g[k].0)
    &&& forall|r: Seq<char>|
        marker_roots(ms).contains(r) <==> g.map_values(|p: (Seq<char>, Seq<Seq<char>>)| p.0).contains(r)
}

pub open spec fn either(a: Option<Seq<char>>, b: Option<Seq<char>>) -> Option<Seq<char>> {
    if a is Some {
        a
    } else {
        b
    }
}

/// The project that the handoffs of repository `root` make, merged in
/// survey order: the first handoff names it and gives its path; branch,
/// build and tests come from the first handoff that has them; the items
/// of all its handoffs are listed in order. `None` when no handoff was
/// found in `root`.
pub open spec fn survey_project(ss: Seq<SurveyHandoff>, root: Seq<char>) -> Option<ProjectView>
    decreases ss.len(),
{
    if ss.len() == 0 {
        None
    } else {
        let prev = survey_project(ss.drop_last(), root);
        let s = ss.last();
        let its = s.items@.map_values(|i: HandoffItem| survey_item(i));
        if s.repo_root@ != root {
            prev
        } else {
            match prev {
                None => Some(
                    ProjectView {
                        name: s.project_name@,
                        path: root,
                        repo_root: root,
                        handoff_path: Some(s.path@),
                        branch: ov(s.branch),
                        build: ov(s.build),
                        tests: ov(s.tests),
                        items: its,
                        todos: Seq::empty(),
                    },
                ),
                Some(p) => Some(
                    ProjectView {
                        branch: either(p.branch, ov(s.branch)),
                        build: either(p.build, ov(s.build)),
                        tests: either(p.tests, ov(s.tests)),
                        items: p.items + its,
                        ..p
                    },
                ),
            }
        }
    }
}

/// The project a survey reports for repository `root`: the merged
/// handoffs with the repository's marker lines, or, where only markers
/// were found, a project named after the repository directory.
pub open spec fn expected_project(
    ss: Seq<SurveyHandoff>,
    ms: Seq<(String, TodoMarker)>,
    root: Seq<char>,
) -> ProjectView {
    match survey_project(ss, root) {
        Some(p) => ProjectView { todos: root_lines(ms, root), ..p },
        None => ProjectView {
            name: match file_name(root) {
                Some(n) => n,
                None => "unknown"@,
            },
            path: root,
            repo_root: root,
            handoff_path: None,
            branch: None,
            build: None,
            tests: None,
            items: Seq::empty(),
            todos: root_lines(ms, root),
        },
    }
}

/// The line of a marker.
fn marker_line_exec(m: &TodoMarker) -> (r: String)
    ensures
        r@ == marker_line(*m),
{
    let mut r = m.path.clone();
    r.append(":");
    push_decimal(&mut r, m.line);
    r.append("  ");
    r.append(m.text.as_str());
    r
}

/// The lines of the markers found in `root`, in order.
fn lines_for_root(ms: &Vec<(String, TodoMarker)>, root: &str) -> (r: Vec<String>)
    ensures
        sv(r@) == root_lines(ms@, root@),
{
    let mut r: Vec<String> = Vec::new();
    let mut k: usize = 0;
    while k < ms.len()
        invariant
            k <= ms@.len(),
            sv(r@) == root_lines(ms@.take(k as int), root@),
        decreases ms.len() - k,
    {
        assert(ms@.take(k + 1).drop_last() =~= ms@.take(k as int));
        assert(ms@.take(k + 1).last() == ms@[k as int]);
        if str_eq(ms[k].0.as_str(), root) {
            let ghost before = r@;
            let line = marker_line_exec(&ms[k].1);
            r.push(line);
            assert(sv(r@) =~= sv(before).push(line@));
        }
        k = k + 1;
    }
    assert(ms@.take(ms@.len() as int) =~= ms@);
    r
}

/// The distinct strings of `roots`, in sorted order.
fn sorted_roots(v: &Vec<String>) -> (r: Vec<String>)
    ensures
        strictly_sorted(sv(r@)),
        forall|s: Seq<char>| sv(r@).contains(s) <==> sv(v@).contains(s),
{
    let ghost roots = sv(v@);
    let mut out: Vec<String> = Vec::new();
    let mut i: usize = 0;
    while i < v.len()
        invariant
            i <= v@.len(),
            sv(v@) == roots,
            strictly_sorted(sv(out@)),
            forall|s: Seq<char>| sv(out@).contains(s) <==> roots.take(i as int).contains(s),
        decreases v.len() - i,
    {
        insert_sorted_unique(&mut out, v[i].clone());
        proof {
            let prev = roots.take(i as int);
            assert(roots.take(i + 1) =~= prev.push(v@[i as int]@));
            let cur = roots.take(i + 1);
            assert forall|s: Seq<char>| cur.contains(s) <==> (prev.contains(s) || s == v@[i as int]@) by {
                if cur.contains(s) {
                    let q = choose|q: int| 0 <= q < cur.len() && cur[q] == s;
                    if q < i {
                        assert(prev[q] == s);
                    }
                }
                if prev.contains(s) {
                    let q = choose|q: int| 0 <= q < prev.len() && prev[q] == s;
                    assert(cur[q] == s);
                }
                if s == v@[i as int]@ {
                    assert(cur[i as int] == s);
                }
            }
        }
        i = i + 1;
    }
    assert(roots.take(v@.len() as int) =~= roots);
    out
}

/// Groups the marker lines by the repository each marker was found in
/// (given with the marker): one group per repository, in repository order,
/// with the lines `path:line  text` in marker order.
pub fn group_markers(markers: Vec<(String, TodoMarker)>) -> (r: Vec<(String, Vec<String>)>)
    ensures
        marker_groups_ok(
            markers@,
            r@.map_values(|p: (String, Vec<String>)| (p.0@, sv(p.1@))),
        ),
{
    let mut root_list: Vec<String> = Vec::new();
    let mut k: usize = 0;
    while k < markers.len()
        invariant
            k <= markers@.len(),
            sv(root_list@) == marker_roots(markers@).take(k as int),
        decreases markers.len() - k,
    {
        let ghost before = root_list@;
        root_list.push(markers[k].0.clone());
        assert(sv(root_list@) =~= sv(before).push(markers@[k as int].0@));
        assert(marker_roots(markers@).take(k + 1) =~= marker_roots(markers@).take(k as int).push(
            markers@[k as int].0@,
        ));
        k = k + 1;
    }
    assert(marker_roots(markers@).take(markers@.len() as int) =~= marker_roots(markers@));
    let roots = sorted_roots(&root_list);
    let mut out: Vec<(String, Vec<String>)> = Vec::new();
    let mut i: usize = 0;
    while i < roots.len()
        invariant
            i <= roots@.len(),
            out@.map_values(|p: (String, Vec<String>)| p.0@) == sv(roots@).take(i as int),
            forall|q: int|
                0 <= q < out@.len() ==> sv((#[trigger] out@[q]).1@) == root_lines(markers@, out@[q].0@),
        decreases roots.len() - i,
    {
        let lines = lines_for_root(&markers, roots[i].as_str());
        let ghost before = out@;
        out.push((roots[i].clone(), lines));
        assert(out@.map_values(|p: (String, Vec<String>)| p.0@) =~= before.map_values(
            |p: (String, Vec<String>)| p.0@,
        ).push(roots@[i as int]@));
        assert(sv(roots@).take(i + 1) =~= sv(roots@).take(i as int).push(roots@[i as int]@));
        i = i + 1;
    }
    let ghost g = out@.map_values(|p: (String, Vec<String>)| (p.0@, sv(p.1@)));
    assert(sv(roots@).take(roots@.len() as int) =~= sv(roots@));
    assert(g.map_values(|p: (Seq<char>, Seq<Seq<char>>)| p.0) =~= sv(roots@));
    assert forall|q: int| 0 <= q < g.len() implies (#[trigger] g[q]).1 == root_lines(markers@, g[q].0) by {
        assert(sv(out@[q].1@) == root_lines(markers@, out@[q].0@));
    }
    out
}

/// A copy of an optional string.
fn opt_clone(o: &Option<String>) -> (r: Option<String>)
    ensures
        ov(r) == ov(*o),
{
    match o {
        Some(s) => Some(s.clone()),
        None => None,
    }
}

/// The survey's listing of handoff items.
fn survey_items(items: &Vec<HandoffItem>) -> (r: Vec<HandupItem>)
    ensures
        item_views(r@) == items@.map_values(|i: HandoffItem| survey_item(i)),
{
    let mut r: Vec<HandupItem> = Vec::new();
    let mut k: usize = 0;
    while k < items.len()
        invariant
            k <= items@.len(),
            item_views(r@) == items@.take(k as int).map_values(|i: HandoffItem| survey_item(i)),
        decreases items.len() - k,
    {
        let item = &items[k];
        let status = match &item.status {
            Some(s) => s.clone(),
            None => owned("open"),
        };
        let h = HandupItem {
            id: item.id.clone(),
            priority: item.inferred_priority(),
            status,
            title: item.title.clone(),
        };
        let ghost before = r@;
        r.push(h);
        assert(item_views(r@) =~= item_views(before).push(item_view(h)));
        assert(items@.take(k + 1).map_values(|i: HandoffItem| survey_item(i)) =~= items@.take(
            k as int,
        ).map_values(|i: HandoffItem| survey_item(i)).push(survey_item(items@[k as int])));
        k = k + 1;
    }
    assert(items@.take(items@.len() as int) =~= items@);
    r
}

/// The project that the handoffs found in `root` make, if any.
fn project_from_surveys(ss: &Vec<SurveyHandoff>, root: &str) -> (r: Option<HandupProject>)
    ensures
        match r {
            Some(p) => survey_project(ss@, root@) == Some(project_view(p)),
            None => survey_project(ss@, root@) is None,
        },
{
    let mut r: Option<HandupProject> = None;
    let mut k: usize = 0;
    while k < ss.len()
        invariant
            k <= ss@.len(),
            match r {
                Some(p) => survey_project(ss@.take(k as int), root@) == Some(project_view(p)),
                None => survey_project(ss@.take(k as int), root@) is None,
            },
        decreases ss.len() - k,
    {
        assert(ss@.take(k + 1).drop_last() =~= ss@.take(k as int));
        assert(ss@.take(k + 1).last() == ss@[k as int]);
        let s = &ss[k];
        if str_eq(s.repo_root.as_str(), root) {
            let mut its = survey_items(&s.items);
            r = match r {
                None => {
                    let p = HandupProject {
                        name: s.project_name.clone(),
                        path: owned(root),
                        repo_root: owned(root),
                        handoff_path: Some(s.path.clone()),
                        branch: opt_clone(&s.branch),
                        build: opt_clone(&s.build),
                        tests: opt_clone(&s.tests),
                        items: its,
                        todos: Vec::new(),
                    };
                    assert(project_view(p).todos =~= Seq::<Seq<char>>::empty());
                    Some(p)
                },
                Some(mut p) => {
                    if p.branch.is_none() {
                        p.branch = opt_clone(&s.branch);
                    }
                    if p.build.is_none() {
                        p.build = opt_clone(&s.build);
                    }
                    if p.tests.is_none() {
                        p.tests = opt_clone(&s.tests);
                    }
                    let ghost pi = p.items@;
                    let ghost ii = its@;
                    p.items.append(&mut its);
                    assert(item_views(p.items@) =~= item_views(pi) + item_views(ii));
                    Some(p)
                },
            };
        }
        k = k + 1;
    }
    assert(ss@.take(ss@.len() as int) =~= ss@);
    r
}

/// The project the survey reports for repository `root`.
fn build_project(ss: &Vec<SurveyHandoff>, ms: &Vec<(String, TodoMarker)>, root: &String) -> (p: HandupProject)
    ensures
        project_view(p) == expected_project(ss@, ms@, root@),
{
    let todos = lines_for_root(ms, root.as_str());
    match project_from_surveys(ss, root.as_str()) {
        Some(mut p) => {
            p.todos = todos;
            p
        },
        None => {
            let name = match file_name_of(root.as_str()) {
                Some(n) => n,
                None => owned("unknown"),
            };
            let p = HandupProject {
                name,
                path: root.clone(),
                repo_root: root.clone(),
                handoff_path: None,
                branch: None,
                build: None,
                tests: None,
                items: Vec::new(),
                todos,
            };
            assert(project_view(p).items =~= Seq::<ItemView>::empty());
            p
        },
    }
}

/// The number of items with priority `p`.
pub open spec fn count_priority(items: Seq<ItemView>, p: Seq<char>) -> nat
    decreases items.len(),
{
    if items.len() == 0 {
        0
    } else {
        count_priority(items.drop_last(), p) + if items.last().1 == p {
            1nat
        } else {
            0nat
        }
    }
}

/// Survey order: more P0 items first, then more P1 items, then by name,
/// then by repository.
pub open spec fn project_before(a: ProjectView, b: ProjectView) -> bool {
    let a0 = count_priority(a.items, "P0"@);
    let b0 = count_priority(b.items, "P0"@);
    let a1 = count_priority(a.items, "P1"@);
    let b1 = count_priority(b.items, "P1"@);
    a0 > b0 || (a0 == b0 && (a1 > b1 || (a1 == b1 && (seq_lt(a.name, b.name) || (a.name == b.name
        && seq_lt(a.repo_root, b.repo_root))))))
}

pub proof fn lemma_project_before_strict(a: ProjectView, b: ProjectView)
    ensures
        !(project_before(a, b) && project_before(b, a)),
        a.repo_root != b.repo_root ==> project_before(a, b) || project_before(b, a),
{
    lemma_seq_lt_trichotomy(a.name, b.name);
    lemma_seq_lt_trichotomy(a.repo_root, b.repo_root);
}

pub proof fn lemma_project_before_trans(a: ProjectView, b: ProjectView, c: ProjectView)
    requires
        project_before(a, b),
        project_before(b, c),
    ensures
        project_before(a, c),
{
    if seq_lt(a.name, b.name) && seq_lt(b.name, c.name) {
        lemma_seq_lt_trans(a.name, b.name, c.name);
    }
    if seq_lt(a.repo_root, b.repo_root) && seq_lt(b.repo_root, c.repo_root) {
        lemma_seq_lt_trans(a.repo_root, b.repo_root, c.repo_root);
    }
}

/// The number of items with priority `p` (given as characters).
fn count_priority_exec(items: &Vec<HandupItem>, p: &str) -> (r: usize)
    ensures
        r == count_priority(item_views(items@), p@),
{
    let mut r: usize = 0;
    let mut k: usize = 0;
    while k < items.len()
        invariant
            k <= items@.len(),
            r <= k,
            r == count_priority(item_views(items@).take(k as int), p@),
        decreases items.len() - k,
    {
        assert(item_views(items@).take(k + 1).drop_last() =~= item_views(items@).take(k as int));
        if str_eq(items[k].priority.as_str(), p) {
            r = r + 1;
        }
        k = k + 1;
    }
    assert(item_views(items@).take(items@.len() as int) =~= item_views(items@));
    r
}

/// Does `a` come before `b` in survey order?
fn project_before_exec(a: &HandupProject, b: &HandupProject) -> (r: bool)
    ensures
        r == project_before(project_view(*a), project_view(*b)),
{
    let a0 = count_priority_exec(&a.items, "P0");
    let b0 = count_priority_exec(&b.items, "P0");
    if a0 != b0 {
        return a0 > b0;
    }
    let a1 = count_priority_exec(&a.items, "P1");
    let b1 = count_priority_exec(&b.items, "P1");
    if a1 != b1 {
        return a1 > b1;
    }
    if str_lt(a.name.as_str(), b.name.as_str()) {
        return true;
    }
    str_eq(a.name.as_str(), b.name.as_str()) && str_lt(a.repo_root.as_str(), b.repo_root.as_str())
}

/// The recommendation for a list of projects in survey order: the first
/// project, with the reason its P0 items, else its P1 items, else its open
/// items, else its todo markers give.
pub open spec fn recommendation_spec(ps: Seq<ProjectView>) -> (Option<Seq<char>>, Seq<char>) {
    if ps.len() == 0 {
        (None, "No open handoff items or TODO markers found."@)
    } else {
        let p = ps[0];
        let p0 = count_priority(p.items, "P0"@);
        let p1 = count_priority(p.items, "P1"@);
        (
            Some(p.name),
            if p0 > 0 {
                dec(p0) + " P0 item(s) need attention"@
            } else if p1 > 0 {
                dec(p1) + " P1 item(s) ready for follow-up"@
            } else if p.items.len() > 0 {
                dec(p.items.len()) + " open item(s) remain in handoff"@
            } else if p.todos.len() > 0 {
                dec(p.todos.len()) + " inline TODO marker(s) found"@
            } else {
                "No open work found."@
            },
        )
    }
}

/// Where to work next: the first project of the survey, and why.
pub fn recommend_project(projects: &[HandupProject]) -> (r: HandupRecommendation)
    ensures
        (ov(r.project), r.reason@) == recommendation_spec(project_views(projects@)),
{
    if projects.len() == 0 {
        return HandupRecommendation {
            project: None,
            reason: owned("No open handoff items or TODO markers found."),
        };
    }
    let project = &projects[0];
    assert(project_views(projects@)[0] == project_view(*project));
    let p0 = count_priority_exec(&project.items, "P0");
    let p1 = count_priority_exec(&project.items, "P1");
    let mut reason = String::new();
    if p0 > 0 {
        push_decimal(&mut reason, p0);
        reason.append(" P0 item(s) need attention");
    } else if p1 > 0 {
        push_decimal(&mut reason, p1);
        reason.append(" P1 item(s) ready for follow-up");
    } else if project.items.len() > 0 {
        push_decimal(&mut reason, project.items.len());
        reason.append(" open item(s) remain in handoff");
    } else if project.todos.len() > 0 {
        push_decimal(&mut reason, project.todos.len());
        reason.append(" inline TODO marker(s) found");
    } else {
        reason = owned("No open work found.");
    }
    HandupRecommendation { project: Some(project.name.clone()), reason }
}

/// Was anything found in repository `root`: a handoff or a marker?
pub open spec fn surveyed(ss: Seq<SurveyHandoff>, ms: Seq<(String, TodoMarker)>, root: Seq<char>) -> bool {
    survey_roots(ss).contains(root) || marker_roots(ms).contains(root)
}

/// `r` is the survey report of the handoffs `ss` and markers `ms`: one
/// project per repository where anything was found, as `expected_project`
/// describes it, in survey order, with the recommendation for that order.
pub open spec fn handup_report_ok(
    r: HandupReport,
    cwd: Seq<char>,
    generated: Seq<char>,
    ss: Seq<SurveyHandoff>,
    ms: Seq<(String, TodoMarker)>,
) -> bool {
    let pv = project_views(r.projects@);
    &&& r.generated@ == generated
    &&& r.cwd@ == cwd
    &&& forall|i: int, j: int| 0 <= i < j < pv.len() ==> project_before(#[trigger] pv[i], #[trigger] pv[j])
    &&& forall|i: int|
        0 <= i < pv.len() ==> (#[trigger] pv[i]) == expected_project(ss, ms, pv[i].repo_root) && surveyed(
            ss,
            ms,
            pv[i].repo_root,
        )
    &&& forall|root: Seq<char>|
        #[trigger] surveyed(ss, ms, root) ==> exists|i: int| 0 <= i < pv.len() && (#[trigger] pv[i]).repo_root == root
    &&& (ov(r.recommendation.project), r.recommendation.reason@) == recommendation_spec(pv)
}

/// The projects are in survey order.
pub open spec fn projects_sorted(pv: Seq<ProjectView>) -> bool {
    forall|a: int, b: int| 0 <= a < b < pv.len() ==> project_before(#[trigger] pv[a], #[trigger] pv[b])
}

proof fn lemma_survey_project_root(ss: Seq<SurveyHandoff>, root: Seq<char>)
    ensures
        survey_project(ss, root) matches Some(p) ==> p.repo_root == root,
        expected_project(ss, Seq::empty(), root).repo_root == root,
    decreases ss.len(),
{
    if ss.len() > 0 {
        lemma_survey_project_root(ss.drop_last(), root);
    }
}

/// Inserts a project of a new repository at its place in survey order.
fn insert_project(out: &mut Vec<HandupProject>, x: HandupProject) -> (p: usize)
    requires
        projects_sorted(project_views(old(out)@)),
        forall|a: int|
            0 <= a < old(out)@.len() ==> (#[trigger] project_views(old(out)@)[a]).repo_root != project_view(
                x,
            ).repo_root,
    ensures
        p <= old(out)@.len(),
        project_views(final(out)@) == project_views(old(out)@).insert(p as int, project_view(x)),
        projects_sorted(project_views(final(out)@)),
{
    let ghost ov0 = project_views(out@);
    let ghost xv = project_view(x);
    let mut p: usize = 0;
    while p < out.len() && project_before_exec(&out[p], &x)
        invariant
            p <= out@.len(),
            ov0 == project_views(out@),
            xv == project_view(x),
            forall|q: int| 0 <= q < p ==> project_before(#[trigger] ov0[q], xv),
        decreases out.len() - p,
    {
        p = p + 1;
    }
    proof {
        if p < ov0.len() {
            lemma_project_before_strict(ov0[p as int], xv);
        }
    }
    out.insert(p, x);
    proof {
        let nv = project_views(out@);
        assert(nv =~= ov0.insert(p as int, xv));
        assert forall|a: int, b: int| 0 <= a < b < nv.len() implies project_before(
            #[trigger] nv[a],
            #[trigger] nv[b],
        ) by {
            if b < p {
            } else if b == p {
            } else if a < p {
                lemma_project_before_trans(nv[a], xv, ov0[p as int]);
                if b - 1 > p {
                    lemma_project_before_trans(nv[a], ov0[p as int], ov0[b - 1]);
                }
            } else if a == p {
                if b - 1 > p {
                    lemma_project_before_trans(xv, ov0[p as int], ov0[b - 1]);
                }
            } else {
            }
        }
    }
    p
}

/// Every repository where a handoff or a marker was found, each once.
fn surveyed_roots(ss: &Vec<SurveyHandoff>, ms: &Vec<(String, TodoMarker)>) -> (r: Vec<String>)
    ensures
        strictly_sorted(sv(r@)),
        forall|s: Seq<char>| sv(r@).contains(s) <==> surveyed(ss@, ms@, s),
{
    let mut all: Vec<String> = Vec::new();
    let mut k: usize = 0;
    while k < ss.len()
        invariant
            k <= ss@.len(),
            sv(all@) == survey_roots(ss@).take(k as int),
        decreases ss.len() - k,
    {
        let ghost before = all@;
        all.push(ss[k].repo_root.clone());
        assert(sv(all@) =~= sv(before).push(ss@[k as int].repo_root@));
        assert(survey_roots(ss@).take(k + 1) =~= survey_roots(ss@).take(k as int).push(
            ss@[k as int].repo_root@,
        ));
        k = k + 1;
    }
    assert(survey_roots(ss@).take(ss@.len() as int) =~= survey_roots(ss@));
    let mut j: usize = 0;
    while j < ms.len()
        invariant
            j <= ms@.len(),
            sv(all@) == survey_roots(ss@) + marker_roots(ms@).take(j as int),
        decreases ms.len() - j,
    {
        let ghost before = all@;
        all.push(ms[j].0.clone());
        assert(sv(all@) =~= sv(before).push(ms@[j as int].0@));
        assert(marker_roots(ms@).take(j + 1) =~= marker_roots(ms@).take(j as int).push(ms@[j as int].0@));
        j = j + 1;
    }
    assert(marker_roots(ms@).take(ms@.len() as int) =~= marker_roots(ms@));
    let r = sorted_roots(&all);
    proof {
        let a = survey_roots(ss@);
        let b = marker_roots(ms@);
        assert forall|s: Seq<char>| (a + b).contains(s) <==> (a.contains(s) || b.contains(s)) by {
            if (a + b).contains(s) {
                let q = choose|q: int| 0 <= q < (a + b).len() && (a + b)[q] == s;
                if q < a.len() {
                    assert(a[q] == s);
                } else {
                    assert(b[q - a.len()] == s);
                }
            }
            if a.contains(s) {
                let q = choose|q: int| 0 <= q < a.len() && a[q] == s;
                assert((a + b)[q] == s);
            }
            if b.contains(s) {
                let q = choose|q: int| 0 <= q < b.len() && b[q] == s;
                assert((a + b)[q + a.len()] == s);
            }
        }
    }
    r
}

/// Builds the survey report: one project per repository where a handoff
/// or a todo marker was found (each marker given with its repository),
/// ordered by urgency, with the recommendation of where to work next.
#[verifier::rlimit(40)]
pub fn build_handup_report(
    cwd: &str,
    generated: &str,
    surveys: Vec<SurveyHandoff>,
    markers: Vec<(String, TodoMarker)>,
) -> (r: HandupReport)
    ensures
        handup_report_ok(r, cwd@, generated@, surveys@, markers@),
{
    let ghost ss = surveys@;
    let ghost ms = markers@;
    let roots = surveyed_roots(&surveys, &markers);
    let ghost rv = sv(roots@);
    let mut built: Vec<HandupProject> = Vec::new();
    let mut i: usize = 0;
    while i < roots.len()
        invariant
            i <= roots@.len(),
            rv == sv(roots@),
            ss == surveys@,
            ms == markers@,
            built@.len() == i,
            forall|k: int|
                0 <= k < i ==> project_view(#[trigger] built@[k]) == expected_project(ss, ms, rv[k]),
        decreases roots.len() - i,
    {
        let p = build_project(&surveys, &markers, &roots[i]);
        built.push(p);
        i = i + 1;
    }
    let ghost bv = project_views(built@);
    assert forall|k: int| 0 <= k < bv.len() implies (#[trigger] bv[k]).repo_root == rv[k] by {
        assert(bv[k] == project_view(built@[k]));
        lemma_survey_project_root(ss, rv[k]);
    }
    let total = built.len();
    let mut rest = built;
    let mut out: Vec<HandupProject> = Vec::new();
    let mut idx: usize = 0;
    while rest.len() > 0
        invariant
            idx + rest@.len() == bv.len(),
            total == bv.len(),
            bv.len() == rv.len(),
            strictly_sorted(rv),
            forall|k: int| 0 <= k < bv.len() ==> (#[trigger] bv[k]).repo_root == rv[k],
            project_views(rest@) == bv.subrange(idx as int, bv.len() as int),
            projects_sorted(project_views(out@)),
            forall|a: int|
                0 <= a < out@.len() ==> exists|k: int|
                    0 <= k < idx && #[trigger] project_views(out@)[a] == #[trigger] bv[k],
            forall|k: int|
                0 <= k < idx ==> exists|a: int|
                    0 <= a < out@.len() && #[trigger] project_views(out@)[a] == #[trigger] bv[k],
        decreases rest.len(),
    {
        let ghost rb = rest@;
        let x = rest.remove(0);
        assert(project_view(x) == bv[idx as int]) by {
            assert(project_views(rb)[0] == bv.subrange(idx as int, bv.len() as int)[0]);
        }
        assert(project_views(rest@) =~= bv.subrange(idx + 1, bv.len() as int)) by {
            assert(project_views(rest@) =~= project_views(rb).subrange(1, rb.len() as int));
        }
        let ghost ov0 = project_views(out@);
        let ghost xv = project_view(x);
        assert forall|a: int| 0 <= a < ov0.len() implies (#[trigger] ov0[a]).repo_root != xv.repo_root by {
            let k = choose|k: int| 0 <= k < idx && #[trigger] project_views(out@)[a] == #[trigger] bv[k];
            assert(seq_lt(rv[k], rv[idx as int]));
            lemma_seq_lt_trichotomy(rv[k], rv[idx as int]);
        }
        let p = insert_project(&mut out, x);
        proof {
            let nv = project_views(out@);
            assert forall|a: int| 0 <= a < nv.len() implies exists|k: int|
                0 <= k < idx + 1 && #[trigger] nv[a] == #[trigger] bv[k] by {
                if a < p {
                    assert(nv[a] == ov0[a]);
                    let k = choose|k: int| 0 <= k < idx && #[trigger] ov0[a] == #[trigger] bv[k];
                    assert(nv[a] == bv[k]);
                } else if a == p {
                    assert(nv[a] == bv[idx as int]);
                } else {
                    assert(nv[a] == ov0[a - 1]);
                    let k = choose|k: int| 0 <= k < idx && #[trigger] ov0[a - 1] == #[trigger] bv[k];
                    assert(nv[a] == bv[k]);
                }
            }
            assert forall|k: int| 0 <= k < idx + 1 implies exists|a: int|
                0 <= a < nv.len() && #[trigger] nv[a] == #[trigger] bv[k] by {
                if k == idx {
                    assert(nv[p as int] == bv[k]);
                } else {
                    let a = choose|a: int| 0 <= a < ov0.len() && #[trigger] ov0[a] == #[trigger] bv[k];
                    if a < p {
                        assert(nv[a] == bv[k]);
                    } else {
                        assert(nv[a + 1] == bv[k]);
                    }
                }
            }
        }
        idx = idx + 1;
    }
    let recommendation = recommend_project(out.as_slice());
    let r = HandupReport { generated: owned(generated), cwd: owned(cwd), projects: out, recommendation };
    proof {
        let pv = project_views(r.projects@);
        assert forall|i: int| 0 <= i < pv.len() implies (#[trigger] pv[i]) == expected_project(
            ss,
            ms,
            pv[i].repo_root,
        ) && surveyed(ss, ms, pv[i].repo_root) by {
            let k = choose|k: int| 0 <= k < idx && #[trigger] pv[i] == #[trigger] bv[k];
            assert(bv[k] == project_view(built@[k]));
            assert(rv.contains(rv[k]));
        }
        assert forall|root: Seq<char>| #[trigger] surveyed(ss, ms, root) implies exists|i: int|
            0 <= i < pv.len() && (#[trigger] pv[i]).repo_root == root by {
            assert(rv.contains(root));
            let k = choose|k: int| 0 <= k < rv.len() && rv[k] == root;
            let a = choose|a: int| 0 <= a < pv.len() && #[trigger] pv[a] == #[trigger] bv[k];
            assert(pv[a].repo_root == root);
        }
    }
    r
}

} // verus!

verus! {

/// A survey report lists each repository once, and the project it
/// recommends (the first) has at least as many P0 items as any other.
pub proof fn law_handup_one_project_per_repository(
    r: HandupReport,
    cwd: Seq<char>,
    generated: Seq<char>,
    ss: Seq<SurveyHandoff>,
    ms: Seq<(String, TodoMarker)>,
)
    requires
        handup_report_ok(r, cwd, generated, ss, ms),
    ensures
        forall|i: int, j: int|
            0 <= i < j < r.projects@.len() ==> (#[trigger] project_views(r.projects@)[i]).repo_root
                != (#[trigger] project_views(r.projects@)[j]).repo_root,
        forall|i: int|
            0 < i < r.projects@.len() ==> count_priority(project_views(r.projects@)[0].items, "P0"@)
                >= count_priority((#[trigger] project_views(r.projects@)[i]).items, "P0"@),
        r.projects@.len() > 0 ==> ov(r.recommendation.project) == Some(r.projects@[0].name@),
{
    let pv = project_views(r.projects@);
    assert forall|i: int, j: int| 0 <= i < j < pv.len() implies (#[trigger] pv[i]).repo_root
        != (#[trigger] pv[j]).repo_root by {
        if pv[i].repo_root == pv[j].repo_root {
            assert(pv[i] == expected_project(ss, ms, pv[i].repo_root));
            assert(pv[j] == expected_project(ss, ms, pv[j].repo_root));
            lemma_project_before_strict(pv[i], pv[j]);
        }
    }
    assert forall|i: int| 0 < i < pv.len() implies count_priority(pv[0].items, "P0"@) >= count_priority(
        (#[trigger] pv[i]).items,
        "P0"@,
    ) by {
        assert(project_before(pv[0], pv[i]));
    }
    if r.projects@.len() > 0 {
        assert(pv[0] == project_view(r.projects@[0]));
    }
}

/// The lines of the markers found in repository `root`, in marker order.
pub open spec fn markers_of(ms: Seq<(String, TodoMarker)>, root: Seq<char>) -> Seq<Seq<char>> {
    ms.filter(|m: (String, TodoMarker)| m.0@ == root).map_values(|m: (String, TodoMarker)| marker_line(m.1))
}

proof fn lemma_root_lines_are_markers_of(ms: Seq<(String, TodoMarker)>, root: Seq<char>)
    ensures
        root_lines(ms, root) == markers_of(ms, root),
    decreases ms.len(),
{
    reveal(Seq::filter);
    if ms.len() > 0 {
        lemma_root_lines_are_markers_of(ms.drop_last(), root);
        let f = |m: (String, TodoMarker)| m.0@ == root;
        let g = |m: (String, TodoMarker)| marker_line(m.1);
        let fd = ms.drop_last().filter(f);
        if ms.last().0@ == root {
            assert(ms.filter(f) == fd.push(ms.last()));
            assert(fd.push(ms.last()).map_values(g) =~= fd.map_values(g).push(marker_line(ms.last().1)));
        } else {
            assert(ms.filter(f) == fd);
        }
    }
}

/// Every project of a survey report lists as its todos exactly the lines
/// of the markers found in its repository (`path:line  text`), in marker
/// order, whether or not a handoff was also found there; and every
/// repository where a marker was found has such a project.
pub proof fn law_handup_projects_list_their_markers(
    r: HandupReport,
    cwd: Seq<char>,
    generated: Seq<char>,
    ss: Seq<SurveyHandoff>,
    ms: Seq<(String, TodoMarker)>,
)
    requires
        handup_report_ok(r, cwd, generated, ss, ms),
    ensures
        forall|i: int|
            0 <= i < r.projects@.len() ==> sv((#[trigger] r.projects@[i]).todos@) == markers_of(
                ms,
                r.projects@[i].repo_root@,
            ),
        forall|k: int|
            0 <= k < ms.len() ==> exists|i: int|
                0 <= i < r.projects@.len() && (#[trigger] r.projects@[i]).repo_root@ == (#[trigger] ms[k]).0@,
{
    let pv = project_views(r.projects@);
    assert forall|i: int| 0 <= i < r.projects@.len() implies sv((#[trigger] r.projects@[i]).todos@) == markers_of(
        ms,
        r.projects@[i].repo_root@,
    ) by {
        assert(pv[i] == project_view(r.projects@[i]));
        assert(pv[i] == expected_project(ss, ms, pv[i].repo_root));
        lemma_root_lines_are_markers_of(ms, pv[i].repo_root);
    }
    assert forall|k: int| 0 <= k < ms.len() implies exists|i: int|
        0 <= i < r.projects@.len() && (#[trigger] r.projects@[i]).repo_root@ == (#[trigger] ms[k]).0@ by {
        let root = ms[k].0@;
        assert(marker_roots(ms)[k] == root);
        assert(marker_roots(ms).contains(root));
        assert(surveyed(ss, ms, root));
        let i = choose|i: int| 0 <= i < pv.len() && (#[trigger] pv[i]).repo_root == root;
        assert(pv[i] == project_view(r.projects@[i]));
    }
}

} // verus!

verus! {

/// Listing order of a project's items: by priority, then by id.
pub open spec fn listing_le(a: ItemView, b: ItemView) -> bool {
    seq_lt(a.1, b.1) || (a.1 == b.1 && crate::text::seq_le(a.0, b.0))
}

pub open spec fn listing_insert(s: Seq<ItemView>, x: ItemView) -> Seq<ItemView>
    decreases s.len(),
{
    if s.len() == 0 {
        seq![x]
    } else if listing_le(s.last(), x) {
        s.push(x)
    } else {
        listing_insert(s.drop_last(), x).push(s.last())
    }
}

/// A project's items in listing order (a stable sort).
pub open spec fn listing_sort(s: Seq<ItemView>) -> Seq<ItemView>
    decreases s.len(),
{
    if s.len() == 0 {
        Seq::<ItemView>::empty()
    } else {
        listing_insert(listing_sort(s.drop_last()), s.last())
    }
}

/// How the summary lists an item.
pub open spec fn item_line(i: ItemView) -> Seq<char> {
    "  "@ + i.1 + "  ["@ + i.0 + "] "@ + i.3 + " (status: "@ + i.2 + ")"@
}

pub open spec fn or_unknown(o: Option<Seq<char>>) -> Seq<char> {
    match o {
        Some(s) => s,
        None => "unknown"@,
    }
}

/// The summary of one project: its heading, its state when any is known,
/// its items in listing order, its todo markers, and a blank line.
pub open spec fn project_summary(p: ProjectView) -> Seq<Seq<char>> {
    seq!["### "@ + p.name + " — "@ + p.path] + (if p.branch is Some || p.build is Some || p.tests is Some {
        seq![
            "Branch: "@ + or_unknown(p.branch) + " | Build: "@ + or_unknown(p.build) + " | Tests: "@
                + or_unknown(p.tests),
        ]
    } else {
        Seq::empty()
    }) + listing_sort(p.items).map_values(|i: ItemView| item_line(i)) + p.todos.map_values(
        |t: Seq<char>| "  TODO  "@ + t,
    ) + seq![Seq::<char>::empty()]
}

/// The summaries of a list of projects, in order.
pub open spec fn projects_summary(ps: Seq<ProjectView>) -> Seq<Seq<char>>
    decreases ps.len(),
{
    if ps.len() == 0 {
        Seq::empty()
    } else {
        projects_summary(ps.drop_last()) + project_summary(ps.last())
    }
}

/// What `handup` prints about a report written to `json` and checkpointed
/// to `db`.
pub open spec fn handup_summary_spec(r: HandupReport, json: Seq<char>, db: Seq<char>) -> Seq<Seq<char>> {
    let ps = project_views(r.projects@);
    if ps.len() == 0 {
        seq![
            "No open handoff items or TODO markers found under `"@ + r.cwd@ + "`."@,
            "Findings written to: "@ + json,
            "Checkpointed to: "@ + db,
        ]
    } else {
        seq!["## handup — "@ + r.cwd@ + " ("@ + r.generated@ + ")"@, Seq::<char>::empty()]
            + projects_summary(ps) + seq![
            "---"@,
            "## Where to next?"@,
            match ov(r.recommendation.project) {
                Some(p) => "Highest urgency: "@ + p + " — "@ + r.recommendation.reason@,
                None => r.recommendation.reason@,
            },
            "Suggested: cd "@ + ps[0].path + " && /atelier:handon"@,
            "Findings written to: "@ + json + " — checkpointed to "@ + db,
        ]
    }
}

proof fn lemma_listing_insert_at(s: Seq<ItemView>, x: ItemView, p: int)
    requires
        0 <= p <= s.len(),
        p == 0 || listing_le(s[p - 1], x),
        forall|j: int| p <= j < s.len() ==> !listing_le(#[trigger] s[j], x),
    ensures
        listing_insert(s, x) == s.subrange(0, p).push(x) + s.subrange(p, s.len() as int),
    decreases s.len(),
{
    if s.len() == 0 {
        assert(s.subrange(0, p).push(x) + s.subrange(p, s.len() as int) =~= seq![x]);
    } else if p == s.len() {
        assert(s.subrange(0, p).push(x) + s.subrange(p, s.len() as int) =~= s.push(x));
    } else {
        assert(!listing_le(s[s.len() - 1], x));
        let d = s.drop_last();
        assert forall|j: int| p <= j < d.len() implies !listing_le(#[trigger] d[j], x) by {
            assert(d[j] == s[j]);
        }
        if p > 0 {
            assert(d[p - 1] == s[p - 1]);
        }
        lemma_listing_insert_at(d, x, p);
        assert(d.subrange(0, p).push(x) + d.subrange(p, d.len() as int) + seq![s.last()] =~= s.subrange(
            0,
            p,
        ).push(x) + s.subrange(p, s.len() as int));
    }
}

fn listing_le_exec(a: &HandupItem, b: &HandupItem) -> (r: bool)
    ensures
        r == listing_le(item_view(*a), item_view(*b)),
{
    str_lt(a.priority.as_str(), b.priority.as_str()) || (str_eq(a.priority.as_str(), b.priority.as_str())
        && (str_lt(a.id.as_str(), b.id.as_str()) || str_eq(a.id.as_str(), b.id.as_str())))
}

/// A project's items in listing order.
fn listing_order(items: &Vec<HandupItem>) -> (r: Vec<&HandupItem>)
    ensures
        r@.map_values(|x: &HandupItem| item_view(*x)) == listing_sort(item_views(items@)),
{
    let ghost a = item_views(items@);
    let mut out: Vec<&HandupItem> = Vec::new();
    let mut i: usize = 0;
    while i < items.len()
        invariant
            i <= items@.len(),
            a == item_views(items@),
            out@.map_values(|x: &HandupItem| item_view(*x)) == listing_sort(a.take(i as int)),
        decreases items.len() - i,
    {
        let x: &HandupItem = &items[i];
        let ghost s = out@.map_values(|y: &HandupItem| item_view(*y));
        assert(a.take(i + 1).drop_last() =~= a.take(i as int));
        assert(a.take(i + 1).last() == item_view(*x));
        let mut p: usize = out.len();
        while p > 0 && !listing_le_exec(out[p - 1], x)
            invariant
                p <= out@.len(),
                s == out@.map_values(|y: &HandupItem| item_view(*y)),
                forall|j: int| p <= j < s.len() ==> !listing_le(#[trigger] s[j], item_view(*x)),
            decreases p,
        {
            p = p - 1;
        }
        proof {
            lemma_listing_insert_at(s, item_view(*x), p as int);
        }
        out.insert(p, x);
        assert(out@.map_values(|y: &HandupItem| item_view(*y)) =~= s.subrange(0, p as int).push(
            item_view(*x),
        ) + s.subrange(p as int, s.len() as int));
        i = i + 1;
    }
    assert(a.take(items@.len() as int) =~= a);
    out
}

fn or_unknown_str(o: &Option<String>) -> (r: &str)
    ensures
        r@ == or_unknown(ov(*o)),
{
    match o {
        Some(s) => s.as_str(),
        None => "unknown",
    }
}

/// Appends the summary of one project.
fn push_project_summary(lines: &mut Vec<String>, p: &HandupProject)
    ensures
        sv(final(lines)@) == sv(old(lines)@) + project_summary(project_view(*p)),
{
    let ghost base = sv(lines@);
    let ghost pv = project_view(*p);
    let mut head = owned("### ");
    head.append(p.name.as_str());
    head.append(" — ");
    head.append(p.path.as_str());
    lines.push(head);
    if p.branch.is_some() || p.build.is_some() || p.tests.is_some() {
        let mut l = owned("Branch: ");
        l.append(or_unknown_str(&p.branch));
        l.append(" | Build: ");
        l.append(or_unknown_str(&p.build));
        l.append(" | Tests: ");
        l.append(or_unknown_str(&p.tests));
        lines.push(l);
    }
    let ghost b1 = sv(lines@);
    let items = listing_order(&p.items);
    let ghost lv = items@.map_values(|x: &HandupItem| item_view(*x));
    let mut k: usize = 0;
    while k < items.len()
        invariant
            k <= items@.len(),
            lv == items@.map_values(|x: &HandupItem| item_view(*x)),
            sv(lines@) == b1 + lv.take(k as int).map_values(|i: ItemView| item_line(i)),
        decreases items.len() - k,
    {
        let it: &HandupItem = items[k];
        let mut l = owned("  ");
        l.append(it.priority.as_str());
        l.append("  [");
        l.append(it.id.as_str());
        l.append("] ");
        l.append(it.title.as_str());
        l.append(" (status: ");
        l.append(it.status.as_str());
        l.append(")");
        let ghost before = sv(lines@);
        lines.push(l);
        assert(sv(lines@) =~= before.push(l@));
        assert(lv[k as int] == item_view(*it));
        assert(lv.take(k + 1).map_values(|i: ItemView| item_line(i)) =~= lv.take(k as int).map_values(
            |i: ItemView| item_line(i),
        ).push(item_line(lv[k as int])));
        k = k + 1;
    }
    assert(lv.take(items@.len() as int) =~= lv);
    let ghost b2 = sv(lines@);
    let mut j: usize = 0;
    while j < p.todos.len()
        invariant
            j <= p.todos@.len(),
            sv(lines@) == b2 + sv(p.todos@).take(j as int).map_values(|t: Seq<char>| "  TODO  "@ + t),
        decreases p.todos.len() - j,
    {
        let mut l = owned("  TODO  ");
        l.append(p.todos[j].as_str());
        let ghost before = sv(lines@);
        lines.push(l);
        assert(sv(lines@) =~= before.push(l@));
        assert(sv(p.todos@).take(j + 1).map_values(|t: Seq<char>| "  TODO  "@ + t) =~= sv(p.todos@).take(
            j as int,
        ).map_values(|t: Seq<char>| "  TODO  "@ + t).push("  TODO  "@ + p.todos@[j as int]@));
        j = j + 1;
    }
    assert(sv(p.todos@).take(p.todos@.len() as int) =~= sv(p.todos@));
    let e = String::new();
    assert(e@ =~= Seq::<char>::empty());
    let ghost b3 = sv(lines@);
    lines.push(e);
    assert(sv(lines@) =~= b3.push(Seq::<char>::empty()));
    assert(sv(lines@) =~= base + project_summary(pv));
}

/// The lines `handup` prints about a report written to `json_path` and
/// checkpointed to `db_path`.
pub fn handup_summary_lines(report: &HandupReport, json_path: &str, db_path: &str) -> (r: Vec<String>)
    ensures
        sv(r@) == handup_summary_spec(*report, json_path@, db_path@),
{
    let mut lines: Vec<String> = Vec::new();
    if report.projects.len() == 0 {
        let mut a = owned("No open handoff items or TODO markers found under `");
        a.append(report.cwd.as_str());
        a.append("`.");
        let mut b = owned("Findings written to: ");
        b.append(json_path);
        let mut c = owned("Checkpointed to: ");
        c.append(db_path);
        lines.push(a);
        lines.push(b);
        lines.push(c);
        assert(sv(lines@) =~= handup_summary_spec(*report, json_path@, db_path@));
        return lines;
    }
    let mut head = owned("## handup — ");
    head.append(report.cwd.as_str());
    head.append(" (");
    head.append(report.generated.as_str());
    head.append(")");
    lines.push(head);
    let e = String::new();
    assert(e@ =~= Seq::<char>::empty());
    lines.push(e);
    let ghost b0 = sv(lines@);
    let ghost pvs = project_views(report.projects@);
    let mut k: usize = 0;
    while k < report.projects.len()
        invariant
            k <= report.projects@.len(),
            pvs == project_views(report.projects@),
            sv(lines@) == b0 + projects_summary(pvs.take(k as int)),
        decreases report.projects.len() - k,
    {
        assert(pvs.take(k + 1).drop_last() =~= pvs.take(k as int));
        assert(pvs.take(k + 1).last() == project_view(report.projects@[k as int]));
        push_project_summary(&mut lines, &report.projects[k]);
        assert(b0 + projects_summary(pvs.take(k as int)) + project_summary(project_view(report.projects@[k as int]))
            =~= b0 + projects_summary(pvs.take(k + 1)));
        k = k + 1;
    }
    assert(pvs.take(report.projects@.len() as int) =~= pvs);
    let ghost b1 = sv(lines@);
    assert(b1 =~= seq!["## handup — "@ + report.cwd@ + " ("@ + report.generated@ + ")"@, Seq::<char>::empty()]
        + projects_summary(pvs));
    lines.push(owned("---"));
    lines.push(owned("## Where to next?"));
    let rec = match &report.recommendation.project {
        Some(p) => {
            let mut l = owned("Highest urgency: ");
            l.append(p.as_str());
            l.append(" — ");
            l.append(report.recommendation.reason.as_str());
            l
        },
        None => report.recommendation.reason.clone(),
    };
    lines.push(rec);
    let mut s = owned("Suggested: cd ");
    s.append(report.projects[0].path.as_str());
    s.append(" && /atelier:handon");
    assert(pvs[0] == project_view(report.projects@[0]));
    lines.push(s);
    let mut f = owned("Findings written to: ");
    f.append(json_path);
    f.append(" — checkpointed to ");
    f.append(db_path);
    lines.push(f);
    let ghost tail = seq![
        "---"@,
        "## Where to next?"@,
        match ov(report.recommendation.project) {
            Some(p) => "Highest urgency: "@ + p + " — "@ + report.recommendation.reason@,
            None => report.recommendation.reason@,
        },
        "Suggested: cd "@ + pvs[0].path + " && /atelier:handon"@,
        "Findings written to: "@ + json_path@ + " — checkpointed to "@ + db_path@,
    ];
    assert(sv(lines@) =~= b1 + tail);
    assert(sv(lines@) =~= handup_summary_spec(*report, json_path@, db_path@));
    lines
}

} // verus!
