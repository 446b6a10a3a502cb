//! The block of `.gitignore` lines that handoff tracking manages.

use vstd::prelude::*;

use crate::text::{chars_of, join, join_vec, lines, lines_vec, string_of, vec_eq, vv};

verus! {

/// The managed block, between its begin and end markers.
pub open spec fn block_lines() -> Seq<Seq<char>> {
    seq![
        "# handoff-begin"@,
        ".ctx/*"@,
        "!.ctx/HANDOFF.*.yaml"@,
        ".ctx/HANDOFF.*.state.json"@,
        "!.ctx/handoff.*.config.toml.example"@,
        ".ctx/HANDOFF.*.*.state.json"@,
        ".ctx/HANDOFF.hj.hj.state.json"@,
        ".ctx/.initialized"@,
        "# handoff-end"@,
    ]
}

pub open spec fn begin_marker() -> Seq<char> {
    "# handoff-begin"@
}

pub open spec fn end_marker() -> Seq<char> {
    "# handoff-end"@
}

/// The rewrite's state after some lines: the output so far, whether it is
/// inside a managed block, and whether the block has been written.
pub type GiState = (Seq<Seq<char>>, bool, bool);

/// One line of the rewrite: a begin marker writes the block (the first
/// time) and opens a block; an end marker closes it; other lines are kept
/// outside blocks and dropped inside them.
pub open spec fn gi_step(st: GiState, line: Seq<char>) -> GiState {
    if line == begin_marker() {
        (if st.2 {
            st.0
        } else {
            st.0 + block_lines()
        }, true, true)
    } else if line == end_marker() {
        (st.0, false, st.2)
    } else if !st.1 {
        (st.0.push(line), st.1, st.2)
    } else {
        st
    }
}

/// The rewrite's state after the lines `ls`, from state `st`.
pub open spec fn gi_run_from(st: GiState, ls: Seq<Seq<char>>) -> GiState
    decreases ls.len(),
{
    if ls.len() == 0 {
        st
    } else {
        gi_step(gi_run_from(st, ls.drop_last()), ls.last())
    }
}

/// The lines of the rewritten `.gitignore`: the existing lines with the
/// managed block in place of the first old block (and old blocks dropped);
/// where there was none, the block is appended, after an empty line when
/// the file does not end with one.
pub open spec fn gitignore_lines(existing: Seq<char>) -> Seq<Seq<char>> {
    let st = gi_run_from((Seq::empty(), false, false), lines(existing));
    if st.2 {
        st.0
    } else {
        (if st.0.len() > 0 && st.0.last().len() > 0 {
            st.0.push(Seq::empty())
        } else {
            st.0
        }) + block_lines()
    }
}

/// The rewritten `.gitignore`: its lines, each ended by a newline.
pub open spec fn gitignore_text(existing: Seq<char>) -> Seq<char> {
    join(gitignore_lines(existing), "\n"@) + "\n"@
}

/// The managed block's lines.
fn block_vec() -> (r: Vec<Vec<char>>)
    ensures
        vv(r@) == block_lines(),
{
    let mut r: Vec<Vec<char>> = Vec::new();
    r.push(chars_of("# handoff-begin"));
    r.push(chars_of(".ctx/*"));
    r.push(chars_of("!.ctx/HANDOFF.*.yaml"));
    r.push(chars_of(".ctx/HANDOFF.*.state.json"));
    r.push(chars_of("!.ctx/handoff.*.config.toml.example"));
    r.push(chars_of(".ctx/HANDOFF.*.*.state.json"));
    r.push(chars_of(".ctx/HANDOFF.hj.hj.state.json"));
    r.push(chars_of(".ctx/.initialized"));
    r.push(chars_of("# handoff-end"));
    assert(vv(r@) =~= block_lines());
    r
}

/// `.gitignore` with the managed block written into it.
pub fn gitignore_with_block(existing: &str) -> (r: String)
    ensures
        r@ == gitignore_text(existing@),
{
    let ls = lines_vec(&chars_of(existing));
    let ghost lv = vv(ls@);
    let begin = chars_of("# handoff-begin");
    let end = chars_of("# handoff-end");
    let mut out: Vec<Vec<char>> = Vec::new();
    let mut in_block = false;
    let mut replaced = false;
    let mut i: usize = 0;
    while i < ls.len()
        invariant
            i <= ls@.len(),
            lv == vv(ls@),
            begin@ == begin_marker(),
            end@ == end_marker(),
            (vv(out@), in_block, replaced) == gi_run_from((Seq::empty(), false, false), lv.take(i as int)),
        decreases ls.len() - i,
    {
        assert(lv.take(i + 1).drop_last() =~= lv.take(i as int));
        assert(lv.take(i + 1).last() == ls@[i as int]@);
        let ghost ob = vv(out@);
        if vec_eq(&ls[i], &begin) {
            if !replaced {
                let b = block_vec();
                let mut k: usize = 0;
                while k < b.len()
                    invariant
                        k <= b@.len(),
                        vv(out@) == ob + vv(b@).take(k as int),
                    decreases b.len() - k,
                {
                    let c = b[k].clone();
                    assert(c@ =~= b@[k as int]@);
                    let ghost before = vv(out@);
                    out.push(c);
                    assert(vv(out@) =~= before.push(c@));
                    assert(vv(b@).take(k + 1) =~= vv(b@).take(k as int).push(vv(b@)[k as int]));
                    assert(vv(out@) =~= ob + vv(b@).take(k + 1));
                    k = k + 1;
                }
                assert(vv(b@).take(b@.len() as int) =~= vv(b@));
                replaced = true;
            }
            in_block = true;
        } else if vec_eq(&ls[i], &end) {
            in_block = false;
        } else if !in_block {
            let c = ls[i].clone();
            assert(c@ =~= ls@[i as int]@);
            out.push(c);
            assert(vv(out@) =~= ob.push(ls@[i as int]@));
        }
        i = i + 1;
    }
    assert(lv.take(lv.len() as int) =~= lv);
    if !replaced {
        if out.len() > 0 && out[out.len() - 1].len() > 0 {
            let ghost ob = vv(out@);
            out.push(Vec::new());
            assert(vv(out@) =~= ob.push(Seq::<char>::empty()));
        }
        let ghost ob = vv(out@);
        let b = block_vec();
        let mut k: usize = 0;
        while k < b.len()
            invariant
                k <= b@.len(),
                vv(out@) == ob + vv(b@).take(k as int),
            decreases b.len() - k,
        {
            let c = b[k].clone();
            assert(c@ =~= b@[k as int]@);
            let ghost before = vv(out@);
            out.push(c);
            assert(vv(out@) =~= before.push(c@));
            assert(vv(b@).take(k + 1) =~= vv(b@).take(k as int).push(vv(b@)[k as int]));
            assert(vv(out@) =~= ob + vv(b@).take(k + 1));
            k = k + 1;
        }
        assert(vv(b@).take(b@.len() as int) =~= vv(b@));
    }
    assert(vv(out@) == gitignore_lines(existing@));
    let nl = chars_of("\n");
    let mut text = join_vec(&out, &nl);
    text.push('\n');
    proof {
        reveal_strlit("\n");
    }
    assert(text@ =~= gitignore_text(existing@));
    string_of(text.as_slice())
}

} // verus!

verus! {

/// No line is a block marker.
pub open spec fn no_markers(m: Seq<Seq<char>>) -> bool {
    forall|i: int| 0 <= i < m.len() ==> (#[trigger] m[i]) != begin_marker() && m[i] != end_marker()
}

/// No line holds a newline or ends with a carriage return.
pub open spec fn plain_lines(m: Seq<Seq<char>>) -> bool {
    forall|i: int|
        0 <= i < m.len() ==> !(#[trigger] m[i]).contains('\n') && !(m[i].len() > 0 && m[i].last() == '\r')
}

proof fn lemma_run_concat(st: GiState, a: Seq<Seq<char>>, b: Seq<Seq<char>>)
    ensures
        gi_run_from(st, a + b) == gi_run_from(gi_run_from(st, a), b),
    decreases b.len(),
{
    if b.len() == 0 {
        assert(a + b =~= a);
    } else {
        lemma_run_concat(st, a, b.drop_last());
        assert((a + b).drop_last() =~= a + b.drop_last());
        assert((a + b).last() == b.last());
    }
}

proof fn lemma_run_outside(st: GiState, m: Seq<Seq<char>>)
    requires
        !st.1,
        no_markers(m),
    ensures
        gi_run_from(st, m) == (st.0 + m, false, st.2),
    decreases m.len(),
{
    if m.len() == 0 {
        assert(st.0 + m =~= st.0);
    } else {
        let d = m.drop_last();
        assert forall|i: int| 0 <= i < d.len() implies (#[trigger] d[i]) != begin_marker() && d[i]
            != end_marker() by {
            assert(d[i] == m[i]);
        }
        lemma_run_outside(st, d);
        assert(m.last() == m[m.len() - 1]);
        assert((st.0 + d).push(m.last()) =~= st.0 + m);
    }
}

proof fn lemma_run_inside(st: GiState, m: Seq<Seq<char>>)
    requires
        st.1,
        no_markers(m),
    ensures
        gi_run_from(st, m) == st,
    decreases m.len(),
{
    if m.len() > 0 {
        let d = m.drop_last();
        assert forall|i: int| 0 <= i < d.len() implies (#[trigger] d[i]) != begin_marker() && d[i]
            != end_marker() by {
            assert(d[i] == m[i]);
        }
        lemma_run_inside(st, d);
        assert(m.last() == m[m.len() - 1]);
    }
}

proof fn lemma_block_facts()
    ensures
        block_lines().len() == 9,
        block_lines()[0] == begin_marker(),
        block_lines()[8] == end_marker(),
        begin_marker() != end_marker(),
        no_markers(block_lines().subrange(1, 8)),
        plain_lines(block_lines()),
{
    reveal_strlit("# handoff-begin");
    reveal_strlit(".ctx/*");
    reveal_strlit("!.ctx/HANDOFF.*.yaml");
    reveal_strlit(".ctx/HANDOFF.*.state.json");
    reveal_strlit("!.ctx/handoff.*.config.toml.example");
    reveal_strlit(".ctx/HANDOFF.*.*.state.json");
    reveal_strlit(".ctx/HANDOFF.hj.hj.state.json");
    reveal_strlit(".ctx/.initialized");
    reveal_strlit("# handoff-end");
    let b = block_lines();
    let body = b.subrange(1, 8);
    assert(begin_marker().len() != end_marker().len());
    assert forall|i: int| 0 <= i < body.len() implies (#[trigger] body[i]) != begin_marker() && body[i]
        != end_marker() by {
        assert(body[i] == b[i + 1]);
        assert(body[i].len() != 15 || body[i][2] != 'h' || body[i][0] != '#');
        assert(body[i].len() != 13 || body[i][0] != '#');
    }
    assert forall|i: int| 0 <= i < b.len() implies !(#[trigger] b[i]).contains('\n') && !(b[i].len() > 0
        && b[i].last() == '\r') by {
        assert forall|j: int| 0 <= j < b[i].len() implies b[i][j] != '\n' by {}
    }
}

proof fn lemma_run_block(o: Seq<Seq<char>>)
    ensures
        gi_run_from((o, false, false), block_lines()) == (o + block_lines(), false, true),
{
    lemma_block_facts();
    let b = block_lines();
    let body = b.subrange(1, 8);
    let st: GiState = (o, false, false);
    assert(b =~= seq![b[0]] + body + seq![b[8]]);
    lemma_run_concat(st, seq![b[0]] + body, seq![b[8]]);
    lemma_run_concat(st, seq![b[0]], body);
    assert(seq![b[0]].drop_last() =~= Seq::<Seq<char>>::empty());
    assert(gi_run_from(st, Seq::<Seq<char>>::empty()) == st);
    assert(gi_step(st, b[0]) == (o + b, true, true));
    assert(gi_run_from(st, seq![b[0]]) == (o + b, true, true));
    lemma_run_inside((o + b, true, true), body);
    assert(gi_run_from(st, seq![b[0]] + body) == (o + b, true, true));
    let mid: GiState = (o + b, true, true);
    assert(seq![b[8]].drop_last() =~= Seq::<Seq<char>>::empty());
    assert(gi_run_from(mid, Seq::<Seq<char>>::empty()) == mid);
    assert(gi_step(mid, b[8]) == (o + b, false, true));
    assert(gi_run_from(mid, seq![b[8]]) == (o + b, false, true));
}

/// The state of a first rewrite: before the block is written, the output
/// is marker-free and outside any block; after, it is marker-free lines,
/// the block, and marker-free lines.
pub open spec fn first_pass_shape(st: GiState) -> bool {
    &&& !st.2 ==> !st.1 && no_markers(st.0)
    &&& st.2 ==> exists|k1: Seq<Seq<char>>, k2: Seq<Seq<char>>|
        no_markers(k1) && no_markers(k2) && #[trigger] (k1 + block_lines() + k2) == st.0
}

proof fn lemma_shape_run(ls: Seq<Seq<char>>)
    ensures
        first_pass_shape(gi_run_from((Seq::empty(), false, false), ls)),
    decreases ls.len(),
{
    if ls.len() > 0 {
        lemma_shape_run(ls.drop_last());
        let st = gi_run_from((Seq::empty(), false, false), ls.drop_last());
        let line = ls.last();
        if line == begin_marker() {
            if !st.2 {
                assert(st.0 + block_lines() + Seq::<Seq<char>>::empty() =~= st.0 + block_lines());
                assert(no_markers(Seq::<Seq<char>>::empty()));
            }
        } else if line == end_marker() {
        } else if !st.1 {
            if st.2 {
                let (k1, k2) = choose|k1: Seq<Seq<char>>, k2: Seq<Seq<char>>|
                    no_markers(k1) && no_markers(k2) && #[trigger] (k1 + block_lines() + k2) == st.0;
                let k2n = k2.push(line);
                assert(k1 + block_lines() + k2n =~= st.0.push(line));
                assert forall|i: int| 0 <= i < k2n.len() implies (#[trigger] k2n[i]) != begin_marker() && k2n[i]
                    != end_marker() by {
                    if i < k2.len() {
                        assert(k2n[i] == k2[i]);
                    }
                }
            } else {
                let o = st.0.push(line);
                assert forall|i: int| 0 <= i < o.len() implies (#[trigger] o[i]) != begin_marker() && o[i]
                    != end_marker() by {
                    if i < st.0.len() {
                        assert(o[i] == st.0[i]);
                    }
                }
            }
        }
    }
}

proof fn lemma_split_free_suffix(s: Seq<char>, t: Seq<char>, c: char)
    requires
        !t.contains(c),
    ensures
        crate::text::split_on(s + t, c) == crate::text::split_on(s, c).update(
            crate::text::split_on(s, c).len() - 1,
            crate::text::split_on(s, c).last() + t,
        ),
    decreases t.len(),
{
    crate::text::lemma_split_on_len(s, c);
    let sp = crate::text::split_on(s, c);
    if t.len() == 0 {
        assert(s + t =~= s);
        assert(sp.last() + t =~= sp.last());
        assert(sp.update(sp.len() - 1, sp.last()) =~= sp);
    } else {
        let td = t.drop_last();
        assert(!td.contains(c)) by {
            if td.contains(c) {
                let j = choose|j: int| 0 <= j < td.len() && td[j] == c;
                assert(t[j] == c);
            }
        }
        lemma_split_free_suffix(s, td, c);
        assert((s + t).drop_last() =~= s + td);
        assert((s + t).last() == t.last());
        assert(t.last() != c) by {
            assert(t[t.len() - 1] == t.last());
        }
        let rest = crate::text::split_on(s + td, c);
        assert(rest.len() == sp.len());
        assert(rest.last() == sp.last() + td);
        assert((sp.last() + td).push(t.last()) =~= sp.last() + t);
        assert(rest.update(rest.len() - 1, rest.last().push(t.last())) =~= sp.update(
            sp.len() - 1,
            sp.last() + t,
        ));
    }
}

proof fn lemma_split_join(l: Seq<Seq<char>>)
    requires
        l.len() >= 1,
        plain_lines(l),
    ensures
        crate::text::split_on(join(l, "\n"@), '\n') == l,
    decreases l.len(),
{
    reveal_strlit("\n");
    if l.len() == 1 {
        assert(join(l, "\n"@) == l[0]);
        lemma_split_free_suffix(Seq::empty(), l[0], '\n');
        assert(Seq::<char>::empty() + l[0] =~= l[0]);
        assert(crate::text::split_on(Seq::<char>::empty(), '\n') =~= seq![Seq::<char>::empty()]);
        assert(seq![Seq::<char>::empty()].update(0, Seq::<char>::empty() + l[0]) =~= l);
    } else {
        let d = l.drop_last();
        assert forall|i: int| 0 <= i < d.len() implies !(#[trigger] d[i]).contains('\n') && !(d[i].len() > 0
            && d[i].last() == '\r') by {
            assert(d[i] == l[i]);
        }
        lemma_split_join(d);
        let a = join(d, "\n"@) + "\n"@;
        assert(a.drop_last() =~= join(d, "\n"@));
        assert(a.last() == '\n');
        assert(crate::text::split_on(a, '\n') == d.push(Seq::<char>::empty()));
        assert(l.last() == l[l.len() - 1]);
        lemma_split_free_suffix(a, l.last(), '\n');
        assert(join(l, "\n"@) =~= a + l.last());
        assert(d.push(Seq::<char>::empty()).update(d.len() as int, Seq::<char>::empty() + l.last()) =~= l);
    }
}

proof fn lemma_lines_of_text(l: Seq<Seq<char>>)
    requires
        l.len() >= 1,
        plain_lines(l),
    ensures
        lines(join(l, "\n"@) + "\n"@) == l,
{
    reveal_strlit("\n");
    lemma_split_join(l);
    let s = join(l, "\n"@) + "\n"@;
    assert(s.drop_last() =~= join(l, "\n"@));
    assert(s.last() == '\n');
    let ps = crate::text::split_on(s, '\n');
    assert(ps == l.push(Seq::<char>::empty()));
    assert(ps.drop_last() =~= l);
    assert(l.map_values(|p: Seq<char>| crate::text::strip_cr(p)) =~= l);
}

/// No line holds a newline.
pub open spec fn no_newlines(m: Seq<Seq<char>>) -> bool {
    forall|i: int| 0 <= i < m.len() ==> !(#[trigger] m[i]).contains('\n')
}

proof fn lemma_split_no_sep(s: Seq<char>, c: char)
    ensures
        forall|i: int|
            0 <= i < crate::text::split_on(s, c).len() ==> !(#[trigger] crate::text::split_on(s, c)[i]).contains(c),
    decreases s.len(),
{
    if s.len() > 0 {
        lemma_split_no_sep(s.drop_last(), c);
        crate::text::lemma_split_on_len(s.drop_last(), c);
        let rest = crate::text::split_on(s.drop_last(), c);
        let sp = crate::text::split_on(s, c);
        assert forall|i: int| 0 <= i < sp.len() implies !(#[trigger] sp[i]).contains(c) by {
            if s.last() == c {
                if i < rest.len() {
                    assert(sp[i] == rest[i]);
                } else {
                    assert(sp[i].len() == 0);
                }
            } else {
                if i < rest.len() - 1 {
                    assert(sp[i] == rest[i]);
                } else {
                    let x = rest.last().push(s.last());
                    assert(sp[i] == x);
                    assert(!rest[rest.len() - 1].contains(c));
                    if x.contains(c) {
                        let j = choose|j: int| 0 <= j < x.len() && x[j] == c;
                        if j < x.len() - 1 {
                            assert(rest.last()[j] == c);
                        }
                    }
                }
            }
        }
    }
}

proof fn lemma_lines_no_newline(s: Seq<char>)
    ensures
        no_newlines(lines(s)),
{
    lemma_split_no_sep(s, '\n');
    if s.len() > 0 {
        let ps = crate::text::split_on(s, '\n');
        crate::text::lemma_split_on_len(s, '\n');
        let l = lines(s);
        assert forall|i: int| 0 <= i < l.len() implies !(#[trigger] l[i]).contains('\n') by {
            assert(!ps[i].contains('\n'));
            if i < ps.len() - 1 {
                let p = ps[i];
                assert(l[i] == crate::text::strip_cr(p));
                if crate::text::strip_cr(p).contains('\n') {
                    let j = choose|j: int| 0 <= j < crate::text::strip_cr(p).len() && crate::text::strip_cr(p)[j] == '\n';
                    assert(p[j] == '\n');
                }
            } else {
                assert(l[i] == ps.last());
            }
        }
    }
}

proof fn lemma_run_no_newline(st: GiState, ls: Seq<Seq<char>>)
    requires
        no_newlines(st.0),
        no_newlines(ls),
        no_newlines(block_lines()),
    ensures
        no_newlines(gi_run_from(st, ls).0),
    decreases ls.len(),
{
    if ls.len() > 0 {
        let d = ls.drop_last();
        assert forall|i: int| 0 <= i < d.len() implies !(#[trigger] d[i]).contains('\n') by {
            assert(d[i] == ls[i]);
        }
        lemma_run_no_newline(st, d);
        let r = gi_run_from(st, d);
        assert(ls.last() == ls[ls.len() - 1]);
        let o = gi_step(r, ls.last()).0;
        assert forall|i: int| 0 <= i < o.len() implies !(#[trigger] o[i]).contains('\n') by {
            if i < r.0.len() {
                assert(o[i] == r.0[i]);
            } else if ls.last() == begin_marker() {
                assert(o[i] == block_lines()[i - r.0.len()]);
            } else {
                assert(o[i] == ls.last());
            }
        }
    }
}

proof fn lemma_lines_have_no_newline(existing: Seq<char>)
    ensures
        no_newlines(gitignore_lines(existing)),
{
    lemma_block_facts();
    lemma_lines_no_newline(existing);
    let st = gi_run_from((Seq::empty(), false, false), lines(existing));
    lemma_run_no_newline((Seq::empty(), false, false), lines(existing));
    let out = gitignore_lines(existing);
    if !st.2 {
        let kp = if st.0.len() > 0 && st.0.last().len() > 0 {
            st.0.push(Seq::empty())
        } else {
            st.0
        };
        assert forall|i: int| 0 <= i < out.len() implies !(#[trigger] out[i]).contains('\n') by {
            if i < st.0.len() {
                assert(out[i] == st.0[i]);
            } else if i < kp.len() {
                assert(out[i].len() == 0);
            } else {
                assert(out[i] == block_lines()[i - kp.len()]);
            }
        }
    }
}

/// Writing the managed block again changes nothing: the rewrite of a
/// rewritten `.gitignore` is the same file. (A last line without a
/// newline that ends in a carriage return is the exception: once the
/// rewrite ends it with a newline, the carriage return reads as part of
/// the line ending.)
pub proof fn law_gitignore_rewrite_idempotent(existing: Seq<char>)
    requires
        forall|i: int|
            0 <= i < gitignore_lines(existing).len() ==> !((#[trigger] gitignore_lines(existing)[i]).len() > 0
                && gitignore_lines(existing)[i].last() == '\r'),
    ensures
        gitignore_text(gitignore_text(existing)) == gitignore_text(existing),
{
    let out = gitignore_lines(existing);
    lemma_block_facts();
    lemma_lines_have_no_newline(existing);
    assert(plain_lines(out));
    lemma_shape_run(lines(existing));
    let st = gi_run_from((Seq::empty(), false, false), lines(existing));
    let init: GiState = (Seq::empty(), false, false);
    if st.2 {
        let (k1, k2) = choose|k1: Seq<Seq<char>>, k2: Seq<Seq<char>>|
            no_markers(k1) && no_markers(k2) && #[trigger] (k1 + block_lines() + k2) == st.0;
        assert(out.len() >= 1);
        lemma_lines_of_text(out);
        lemma_run_concat(init, k1 + block_lines(), k2);
        lemma_run_concat(init, k1, block_lines());
        lemma_run_outside(init, k1);
        assert(Seq::<Seq<char>>::empty() + k1 =~= k1);
        lemma_run_block(k1);
        lemma_run_outside((k1 + block_lines(), false, true), k2);
    } else {
        let kp = if st.0.len() > 0 && st.0.last().len() > 0 {
            st.0.push(Seq::empty())
        } else {
            st.0
        };
        assert(no_markers(kp)) by {
            reveal_strlit("# handoff-begin");
            reveal_strlit("# handoff-end");
            assert forall|i: int| 0 <= i < kp.len() implies (#[trigger] kp[i]) != begin_marker() && kp[i]
                != end_marker() by {
                if i < st.0.len() {
                    assert(kp[i] == st.0[i]);
                } else {
                    assert(kp[i].len() == 0);
                }
            }
        }
        assert(out.len() >= 1);
        lemma_lines_of_text(out);
        lemma_run_concat(init, kp, block_lines());
        lemma_run_outside(init, kp);
        assert(Seq::<Seq<char>>::empty() + kp =~= kp);
        lemma_run_block(kp);
    }
}

/// The lines of a `.gitignore` outside its managed blocks, in order (the
/// markers and the lines between a begin marker and its end dropped),
/// with whether the last line leaves a block open.
pub open spec fn outside_run(ls: Seq<Seq<char>>) -> (Seq<Seq<char>>, bool)
    decreases ls.len(),
{
    if ls.len() == 0 {
        (Seq::empty(), false)
    } else {
        let st = outside_run(ls.drop_last());
        let line = ls.last();
        if line == begin_marker() {
            (st.0, true)
        } else if line == end_marker() {
            (st.0, false)
        } else if !st.1 {
            (st.0.push(line), false)
        } else {
            st
        }
    }
}

/// The lines of `existing` outside its managed blocks, in order.
pub open spec fn outside_lines(existing: Seq<char>) -> Seq<Seq<char>> {
    outside_run(lines(existing)).0
}

/// The rewrite so far and the outside lines so far agree: the rewrite is
/// the outside lines, with the block once written between the lines
/// before it and those after it.
pub open spec fn agrees_with_outside(st: GiState, ot: (Seq<Seq<char>>, bool)) -> bool {
    &&& st.1 == ot.1
    &&& !st.2 ==> st.0 == ot.0 && no_markers(st.0)
    &&& st.2 ==> exists|k1: Seq<Seq<char>>, k2: Seq<Seq<char>>|
        no_markers(k1) && no_markers(k2) && #[trigger] (k1 + block_lines() + k2) == st.0 && ot.0 == k1 + k2
}

proof fn lemma_outside_agrees(ls: Seq<Seq<char>>)
    ensures
        agrees_with_outside(gi_run_from((Seq::empty(), false, false), ls), outside_run(ls)),
    decreases ls.len(),
{
    if ls.len() > 0 {
        lemma_outside_agrees(ls.drop_last());
        let st = gi_run_from((Seq::empty(), false, false), ls.drop_last());
        let ot = outside_run(ls.drop_last());
        let line = ls.last();
        if line == begin_marker() {
            if !st.2 {
                let k1 = st.0;
                let k2 = Seq::<Seq<char>>::empty();
                assert(k1 + block_lines() + k2 =~= st.0 + block_lines());
                assert(ot.0 =~= k1 + k2);
                assert(no_markers(k2));
            }
        } else if line == end_marker() {
        } else if !st.1 {
            if st.2 {
                let (k1, k2) = choose|k1: Seq<Seq<char>>, k2: Seq<Seq<char>>|
                    no_markers(k1) && no_markers(k2) && #[trigger] (k1 + block_lines() + k2) == st.0 && ot.0
                        == k1 + k2;
                let k2n = k2.push(line);
                assert(k1 + block_lines() + k2n =~= st.0.push(line));
                assert(k1 + k2n =~= ot.0.push(line));
                assert forall|i: int| 0 <= i < k2n.len() implies (#[trigger] k2n[i]) != begin_marker() && k2n[i]
                    != end_marker() by {
                    if i < k2.len() {
                        assert(k2n[i] == k2[i]);
                    }
                }
            } else {
                let o = st.0.push(line);
                assert forall|i: int| 0 <= i < o.len() implies (#[trigger] o[i]) != begin_marker() && o[i]
                    != end_marker() by {
                    if i < st.0.len() {
                        assert(o[i] == st.0[i]);
                    }
                }
            }
        }
    }
}

proof fn lemma_single_begin(k1: Seq<Seq<char>>, k2: Seq<Seq<char>>)
    requires
        no_markers(k1),
        no_markers(k2),
    ensures
        (k1 + block_lines() + k2)[k1.len() as int] == begin_marker(),
        (k1 + block_lines() + k2).subrange(k1.len() as int, k1.len() + 9int) == block_lines(),
        forall|j: int|
            0 <= j < (k1 + block_lines() + k2).len() && #[trigger] (k1 + block_lines() + k2)[j]
                == begin_marker() ==> j == k1.len(),
{
    lemma_block_facts();
    let b = block_lines();
    let out = k1 + b + k2;
    assert(out.subrange(k1.len() as int, k1.len() + 9int) =~= b);
    assert forall|j: int| 0 <= j < out.len() && #[trigger] out[j] == begin_marker() implies j == k1.len() by {
        if j < k1.len() {
            assert(out[j] == k1[j]);
        } else if j < k1.len() + 9 {
            if j > k1.len() {
                assert(out[j] == b[j - k1.len()]);
                if j < k1.len() + 8 {
                    assert(b.subrange(1, 8)[j - k1.len() - 1] == b[j - k1.len()]);
                }
            }
        } else {
            assert(out[j] == k2[j - k1.len() - 9]);
        }
    }
}

/// The shape of a rewritten `.gitignore`: its lines are the lines of the
/// old file outside its managed blocks, in order, with the managed block
/// (begin marker, managed lines, end marker) once among them: in place of
/// the first old block, or at the end after an empty line when there was
/// none and the file did not end with an empty line. Exactly one line is
/// the begin marker, and the text ends with a newline.
pub proof fn law_gitignore_block_shape(existing: Seq<char>)
    ensures
        exists|k1: Seq<Seq<char>>, k2: Seq<Seq<char>>|
            no_markers(k1) && no_markers(k2) && #[trigger] (k1 + block_lines() + k2) == gitignore_lines(existing)
                && (k1 + k2 == outside_lines(existing) || (k2.len() == 0 && k1 == outside_lines(
                existing,
            ).push(Seq::empty()))),
        exists|p: int|
            0 <= p && p + 9 <= gitignore_lines(existing).len() && #[trigger] gitignore_lines(existing).subrange(p, p + 9)
                == block_lines() && forall|j: int|
                0 <= j < gitignore_lines(existing).len() && #[trigger] gitignore_lines(existing)[j]
                    == begin_marker() ==> j == p,
        gitignore_text(existing).len() > 0,
        gitignore_text(existing).last() == '\n',
{
    reveal_strlit("\n");
    lemma_block_facts();
    let ls = lines(existing);
    lemma_outside_agrees(ls);
    let st = gi_run_from((Seq::empty(), false, false), ls);
    let ot = outside_run(ls);
    let out = gitignore_lines(existing);
    if st.2 {
        let (k1, k2) = choose|k1: Seq<Seq<char>>, k2: Seq<Seq<char>>|
            no_markers(k1) && no_markers(k2) && #[trigger] (k1 + block_lines() + k2) == st.0 && ot.0 == k1 + k2;
        lemma_single_begin(k1, k2);
        assert(out.subrange(k1.len() as int, k1.len() + 9int) == block_lines());
    } else {
        let kp = if st.0.len() > 0 && st.0.last().len() > 0 {
            st.0.push(Seq::empty())
        } else {
            st.0
        };
        let k2 = Seq::<Seq<char>>::empty();
        assert(no_markers(kp)) by {
            reveal_strlit("# handoff-begin");
            reveal_strlit("# handoff-end");
            assert forall|i: int| 0 <= i < kp.len() implies (#[trigger] kp[i]) != begin_marker() && kp[i]
                != end_marker() by {
                if i < st.0.len() {
                    assert(kp[i] == st.0[i]);
                } else {
                    assert(kp[i].len() == 0);
                }
            }
        }
        assert(no_markers(k2));
        assert(kp + block_lines() + k2 =~= out);
        assert(kp + k2 =~= kp);
        lemma_single_begin(kp, k2);
        assert(out.subrange(kp.len() as int, kp.len() + 9int) == block_lines());
    }
}

} // verus!
