//! Naming rules: project and id prefixes, slug titles, and the priority
//! that a title's wording implies.

use vstd::prelude::*;

use crate::text::{
    char_uppercase, chars_of, contains, contains_exec, extend_chars, join, join_vec, lower_char,
    lower_char_exec, lower_seq, lower_vec, owned, push_char, split_on, split_vec, string_of, trim,
    trim_end, trim_start, trim_vec, uppercase_of, vv,
};

verus! {

/// The character that `sanitize_name` puts in place of `c` (after lower-casing).
pub open spec fn sanitize_char(c: char) -> char {
    if c == ' ' || c == '/' {
        '-'
    } else {
        c
    }
}

/// A project name as the tool keeps it: trimmed, ASCII lower-case, with
/// spaces and slashes turned into dashes.
pub open spec fn sanitize_spec(raw: Seq<char>) -> Seq<char> {
    trim(raw).map_values(|c: char| sanitize_char(lower_char(c)))
}

/// The first seven characters of the sanitized name.
pub open spec fn id_prefix_spec(project: Seq<char>) -> Seq<char> {
    let s = sanitize_spec(project);
    if s.len() <= 7 {
        s
    } else {
        s.subrange(0, 7)
    }
}

/// A slug segment with its first character upper-cased.
pub open spec fn capitalize(p: Seq<char>) -> Seq<char>
    recommends
        p.len() > 0,
{
    uppercase_of(p[0]) + p.drop_first()
}

/// The non-empty segments of a slug, each capitalized.
pub open spec fn capitalized_parts(ps: Seq<Seq<char>>) -> Seq<Seq<char>>
    decreases ps.len(),
{
    if ps.len() == 0 {
        Seq::<Seq<char>>::empty()
    } else if ps.last().len() > 0 {
        capitalized_parts(ps.drop_last()).push(capitalize(ps.last()))
    } else {
        capitalized_parts(ps.drop_last())
    }
}

/// `wire-render-pass` becomes `Wire Render Pass`: the non-empty dash-separated
/// segments, capitalized, joined by single spaces.
pub open spec fn titleize_spec(slug: Seq<char>) -> Seq<char> {
    join(capitalized_parts(split_on(slug, '-')), seq![' '])
}

/// The text whose words decide an item's priority.
pub open spec fn priority_text(title: Seq<char>, description: Option<Seq<char>>) -> Seq<char> {
    let d = match description {
        Some(d) => d,
        None => Seq::<char>::empty(),
    };
    lower_seq(title) + seq![' '] + lower_seq(d)
}

/// Words that mark urgent (P0) work.
pub open spec fn p0_signal(c: Seq<char>) -> bool {
    ||| contains(c, "broken"@)
    ||| contains(c, "fails"@)
    ||| contains(c, "segfault"@)
    ||| contains(c, "panic"@)
    ||| contains(c, "security"@)
    ||| contains(c, "blocked"@)
    ||| contains(c, "urgent"@)
    ||| contains(c, "can't deploy"@)
}

/// Words that mark ready (P1) work.
pub open spec fn p1_signal(c: Seq<char>) -> bool {
    ||| contains(c, "fix"@)
    ||| contains(c, "implement"@)
    ||| contains(c, "refactor"@)
    ||| contains(c, "wire"@)
    ||| contains(c, "small change"@)
    ||| contains(c, "known fix"@)
}

/// `P0` if the title or description carry an urgent word, else `P1` if they
/// carry a ready word, else `P2`.
pub open spec fn infer_priority_spec(title: Seq<char>, description: Option<Seq<char>>) -> Seq<char> {
    let c = priority_text(title, description);
    if p0_signal(c) {
        "P0"@
    } else if p1_signal(c) {
        "P1"@
    } else {
        "P2"@
    }
}

/// Normalizes a project name: trimmed, ASCII lower-case, spaces and `/` as `-`.
pub fn sanitize_name(raw: &str) -> (r: String)
    ensures
        r@ == sanitize_spec(raw@),
{
    let chars = chars_of(raw);
    let t = trim_vec(&chars);
    let mut out = String::new();
    let mut i: usize = 0;
    while i < t.len()
        invariant
            i <= t@.len(),
            t@ == trim(raw@),
            out@ == t@.subrange(0, i as int).map_values(|c: char| sanitize_char(lower_char(c))),
        decreases t.len() - i,
    {
        let c = lower_char_exec(t[i]);
        let c = if c == ' ' || c == '/' {
            '-'
        } else {
            c
        };
        push_char(&mut out, c);
        assert(t@.subrange(0, i + 1).map_values(|c: char| sanitize_char(lower_char(c))) =~= t@.subrange(
            0,
            i as int,
        ).map_values(|c: char| sanitize_char(lower_char(c))).push(c));
        i = i + 1;
    }
    assert(t@.subrange(0, t@.len() as int) =~= t@);
    out
}

/// The default id prefix of a project: its sanitized name cut to seven characters.
pub fn default_id_prefix(project: &str) -> (r: String)
    ensures
        r@ == id_prefix_spec(project@),
{
    let cleaned = sanitize_name(project);
    let chars = chars_of(cleaned.as_str());
    let mut out = String::new();
    let mut i: usize = 0;
    while i < chars.len() && i < 7
        invariant
            i <= chars@.len(),
            i <= 7,
            chars@ == sanitize_spec(project@),
            out@ == chars@.subrange(0, i as int),
        decreases chars.len() - i,
    {
        push_char(&mut out, chars[i]);
        assert(chars@.subrange(0, i + 1) =~= chars@.subrange(0, i as int).push(chars@[i as int]));
        i = i + 1;
    }
    assert(chars@.len() <= 7 ==> chars@.subrange(0, chars@.len() as int) =~= chars@);
    out
}

/// As many capitalized parts as non-empty parts: none exactly when every
/// part is empty.
proof fn lemma_capitalized_empty(ps: Seq<Seq<char>>)
    ensures
        capitalized_parts(ps).len() == 0 <==> forall|i: int| 0 <= i < ps.len() ==> #[trigger] ps[i].len() == 0,
    decreases ps.len(),
{
    if ps.len() > 0 {
        let d = ps.drop_last();
        lemma_capitalized_empty(d);
        if ps.last().len() == 0 {
            if forall|i: int| 0 <= i < d.len() ==> #[trigger] d[i].len() == 0 {
                assert forall|i: int| 0 <= i < ps.len() implies #[trigger] ps[i].len() == 0 by {
                    if i < d.len() {
                        assert(d[i] == ps[i]);
                    }
                }
            } else {
                let j = choose|j: int| 0 <= j < d.len() && #[trigger] d[j].len() != 0;
                assert(d[j] == ps[j]);
            }
        } else {
            assert(ps[ps.len() - 1].len() > 0);
        }
    }
}

/// Joining non-empty words gives the empty text only when there are none.
proof fn lemma_join_nonempty_words(ps: Seq<Seq<char>>, sep: Seq<char>)
    requires
        forall|i: int| 0 <= i < ps.len() ==> #[trigger] ps[i].len() > 0,
    ensures
        join(ps, sep).len() == 0 <==> ps.len() == 0,
    decreases ps.len(),
{
    if ps.len() > 1 {
        assert(ps.last() == ps[ps.len() - 1]);
    } else if ps.len() == 1 {
        assert(ps[0].len() > 0);
    }
}

/// Turns a dash-separated slug into a title: `wire-render-pass` → `Wire Render Pass`.
pub fn titleize_slug(slug: &str) -> (r: String)
    ensures
        r@ == titleize_spec(slug@),
        r@.len() == 0 <==> forall|i: int|
            0 <= i < split_on(slug@, '-').len() ==> #[trigger] split_on(slug@, '-')[i].len() == 0,
{
    let chars = chars_of(slug);
    let parts = split_vec(&chars, '-');
    let mut words: Vec<Vec<char>> = Vec::new();
    let mut i: usize = 0;
    while i < parts.len()
        invariant
            i <= parts@.len(),
            vv(parts@) == split_on(slug@, '-'),
            vv(words@) == capitalized_parts(vv(parts@).subrange(0, i as int)),
            forall|j: int| 0 <= j < vv(words@).len() ==> #[trigger] vv(words@)[j].len() > 0,
        decreases parts.len() - i,
    {
        let ghost pre = vv(parts@).subrange(0, i as int);
        assert(vv(parts@).subrange(0, i + 1).drop_last() =~= pre);
        let part = &parts[i];
        if part.len() > 0 {
            let up = char_uppercase(part[0]);
            let mut word = chars_of(up.as_str());
            let mut k: usize = 1;
            while k < part.len()
                invariant
                    1 <= k <= part@.len(),
                    word@ == uppercase_of(part@[0]) + part@.subrange(1, k as int),
                decreases part.len() - k,
            {
                word.push(part[k]);
                assert(uppercase_of(part@[0]) + part@.subrange(1, k + 1) =~= (uppercase_of(part@[0])
                    + part@.subrange(1, k as int)).push(part@[k as int]));
                k = k + 1;
            }
            assert(part@.subrange(1, part@.len() as int) =~= part@.drop_first());
            let ghost w = word@;
            words.push(word);
            assert(vv(words@) =~= capitalized_parts(pre).push(w));
            assert(w.len() > 0);
        }
        i = i + 1;
    }
    assert(vv(parts@).subrange(0, parts@.len() as int) =~= vv(parts@));
    let sep = vec![' '];
    let joined = join_vec(&words, &sep);
    assert(sep@ =~= seq![' ']);
    proof {
        lemma_capitalized_empty(split_on(slug@, '-'));
        lemma_join_nonempty_words(vv(words@), seq![' ']);
    }
    string_of(joined.as_slice())
}

/// Does the lower-cased text contain the pattern?
fn has(c: &Vec<char>, pattern: &str) -> (r: bool)
    ensures
        r == contains(c@, pattern@),
{
    let p = chars_of(pattern);
    contains_exec(c, &p)
}

/// Infers a priority from the wording of a title and optional description.
pub fn infer_priority(title: &str, description: Option<&str>) -> (r: String)
    ensures
        r@ == infer_priority_spec(title@, match description {
            Some(d) => Some(d@),
            None => None,
        }),
{
    let t = lower_vec(&chars_of(title));
    let d = match description {
        Some(d) => lower_vec(&chars_of(d)),
        None => Vec::new(),
    };
    let mut combined: Vec<char> = Vec::new();
    extend_chars(&mut combined, &t);
    combined.push(' ');
    extend_chars(&mut combined, &d);
    let ghost dv = match description {
        Some(d) => Some(d@),
        None => None::<Seq<char>>,
    };
    assert(combined@ =~= priority_text(title@, dv)) by {
        if description is None {
            assert(d@ =~= lower_seq(Seq::<char>::empty()));
        }
    }
    if has(&combined, "broken") || has(&combined, "fails") || has(&combined, "segfault") || has(
        &combined,
        "panic",
    ) || has(&combined, "security") || has(&combined, "blocked") || has(&combined, "urgent")
        || has(&combined, "can't deploy") {
        return owned("P0");
    }
    if has(&combined, "fix") || has(&combined, "implement") || has(&combined, "refactor") || has(
        &combined,
        "wire",
    ) || has(&combined, "small change") || has(&combined, "known fix") {
        return owned("P1");
    }
    owned("P2")
}

} // verus!

verus! {

proof fn lemma_trim_end_prefix(t: Seq<char>)
    ensures
        trim_end(t).len() <= t.len(),
        trim_end(t) == t.subrange(0, trim_end(t).len() as int),
        trim_end(t).len() > 0 ==> !crate::text::is_ws(trim_end(t).last()),
    decreases t.len(),
{
    if t.len() > 0 && crate::text::is_ws(t.last()) {
        lemma_trim_end_prefix(t.drop_last());
        assert(t.drop_last().subrange(0, trim_end(t).len() as int) =~= t.subrange(0, trim_end(t).len() as int));
    } else {
        assert(t.subrange(0, t.len() as int) =~= t);
    }
}

proof fn lemma_trim_start_first(s: Seq<char>)
    ensures
        trim_start(s).len() > 0 ==> !crate::text::is_ws(trim_start(s)[0]),
    decreases s.len(),
{
    if s.len() > 0 && crate::text::is_ws(s[0]) {
        lemma_trim_start_first(s.drop_first());
    }
}

proof fn lemma_trim_ends(s: Seq<char>)
    ensures
        trim(s).len() > 0 ==> !crate::text::is_ws(trim(s)[0]) && !crate::text::is_ws(trim(s).last()),
{
    let t = trim_start(s);
    lemma_trim_start_first(s);
    lemma_trim_end_prefix(t);
    if trim(s).len() > 0 {
        assert(trim(s)[0] == t[0]);
    }
}

proof fn lemma_trim_keeps(s: Seq<char>)
    requires
        s.len() > 0 ==> !crate::text::is_ws(s[0]) && !crate::text::is_ws(s.last()),
    ensures
        trim(s) == s,
{
    assert(trim_start(s) == s);
}

/// Sanitizing a sanitized name changes nothing.
pub proof fn law_sanitize_idempotent(raw: Seq<char>)
    ensures
        sanitize_spec(sanitize_spec(raw)) == sanitize_spec(raw),
{
    let s = sanitize_spec(raw);
    let t = trim(raw);
    lemma_trim_ends(raw);
    if s.len() > 0 {
        assert(s[0] == sanitize_char(lower_char(t[0])));
        assert(s.last() == sanitize_char(lower_char(t.last())));
    }
    lemma_trim_keeps(s);
    assert(s.map_values(|c: char| sanitize_char(lower_char(c))) =~= s);
}

/// One of the words that mark urgent work.
pub open spec fn urgent_word(w: Seq<char>) -> bool {
    ||| w == "broken"@
    ||| w == "fails"@
    ||| w == "segfault"@
    ||| w == "panic"@
    ||| w == "security"@
    ||| w == "blocked"@
    ||| w == "urgent"@
    ||| w == "can't deploy"@
}

/// An urgent word anywhere in the title or the description, in any ASCII
/// case, makes the inferred priority `P0`.
pub proof fn law_urgent_word_gives_p0(title: Seq<char>, description: Option<Seq<char>>, w: Seq<char>)
    requires
        urgent_word(w),
        contains(lower_seq(title), w) || (description matches Some(d) && contains(lower_seq(d), w)),
    ensures
        infer_priority_spec(title, description) == "P0"@,
{
    let d = match description {
        Some(d) => d,
        None => Seq::<char>::empty(),
    };
    let c = priority_text(title, description);
    assert(c == lower_seq(title) + seq![' '] + lower_seq(d));
    let k = if contains(lower_seq(title), w) {
        let i = choose|i: int| crate::text::occurs_at(lower_seq(title), w, i);
        assert(c.subrange(i, i + w.len()) =~= lower_seq(title).subrange(i, i + w.len()));
        i
    } else {
        let i = choose|i: int| crate::text::occurs_at(lower_seq(d), w, i);
        let off = lower_seq(title).len() + 1;
        assert(c.subrange(off + i, off + i + w.len()) =~= lower_seq(d).subrange(i, i + w.len()));
        off + i
    };
    assert(crate::text::occurs_at(c, w, k));
    assert(contains(c, w));
}

/// One of the words that mark ready work.
pub open spec fn ready_word(w: Seq<char>) -> bool {
    ||| w == "fix"@
    ||| w == "implement"@
    ||| w == "refactor"@
    ||| w == "wire"@
    ||| w == "small change"@
    ||| w == "known fix"@
}

/// With no urgent word in the lower-cased title and description (joined
/// by a space), a ready word in the title or description makes the
/// inferred priority `P1`; with neither kind of word it is `P2`.
pub proof fn law_ready_word_gives_p1_else_p2(title: Seq<char>, description: Option<Seq<char>>)
    requires
        forall|w: Seq<char>| urgent_word(w) ==> !contains(#[trigger] priority_text(title, description), w),
    ensures
        (exists|w: Seq<char>| ready_word(w) && #[trigger] contains(priority_text(title, description), w))
            ==> infer_priority_spec(title, description) == "P1"@,
        (forall|w: Seq<char>| ready_word(w) ==> !#[trigger] contains(priority_text(title, description), w))
            ==> infer_priority_spec(title, description) == "P2"@,
{
    let c = priority_text(title, description);
    assert(urgent_word("broken"@));
    assert(!contains(priority_text(title, description), "broken"@));
    assert(urgent_word("fails"@));
    assert(!contains(priority_text(title, description), "fails"@));
    assert(urgent_word("segfault"@));
    assert(!contains(priority_text(title, description), "segfault"@));
    assert(urgent_word("panic"@));
    assert(!contains(priority_text(title, description), "panic"@));
    assert(urgent_word("security"@));
    assert(!contains(priority_text(title, description), "security"@));
    assert(urgent_word("blocked"@));
    assert(!contains(priority_text(title, description), "blocked"@));
    assert(urgent_word("urgent"@));
    assert(!contains(priority_text(title, description), "urgent"@));
    assert(urgent_word("can't deploy"@));
    assert(!contains(priority_text(title, description), "can't deploy"@));
    assert(!p0_signal(c));
    if forall|w: Seq<char>| ready_word(w) ==> !#[trigger] contains(c, w) {
        assert(ready_word("fix"@));
        assert(!contains(priority_text(title, description), "fix"@));
        assert(ready_word("implement"@));
        assert(!contains(priority_text(title, description), "implement"@));
        assert(ready_word("refactor"@));
        assert(!contains(priority_text(title, description), "refactor"@));
        assert(ready_word("wire"@));
        assert(!contains(priority_text(title, description), "wire"@));
        assert(ready_word("small change"@));
        assert(!contains(priority_text(title, description), "small change"@));
        assert(ready_word("known fix"@));
        assert(!contains(priority_text(title, description), "known fix"@));
    }
}

} // verus!
