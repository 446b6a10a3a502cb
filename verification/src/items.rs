//! What an item is called, which items are active, and the defaults a
//! handoff fills in.

use vstd::prelude::*;

use crate::model::{Handoff, HandoffItem};
use crate::naming::{default_id_prefix, id_prefix_spec, infer_priority, infer_priority_spec, titleize_slug, titleize_spec};
use crate::text::{chars_of, ends_with, ends_with_exec, owned, push_vec, str_eq};

verus! {

/// The view of an optional string.
pub open spec fn ov(o: Option<String>) -> Option<Seq<char>> {
    match o {
        Some(s) => Some(s@),
        None => None,
    }
}

/// An item is active when its status is `open` or `blocked`.
pub open spec fn item_active(item: HandoffItem) -> bool {
    ov(item.status) == Some("open"@) || ov(item.status) == Some("blocked"@)
}

/// The active items, in order.
pub open spec fn active_seq(items: Seq<HandoffItem>) -> Seq<HandoffItem>
    decreases items.len(),
{
    if items.len() == 0 {
        Seq::<HandoffItem>::empty()
    } else if item_active(items.last()) {
        active_seq(items.drop_last()).push(items.last())
    } else {
        active_seq(items.drop_last())
    }
}

/// The suffix that marks blocked work in a todo title.
pub open spec fn blocked_suffix() -> Seq<char> {
    " [BLOCKED]"@
}

/// Does the item's `name` give a usable slug title?
pub open spec fn name_title_usable(name: Option<Seq<char>>) -> bool {
    match name {
        Some(n) => n.len() > 0 && n != "null"@ && titleize_spec(n).len() > 0,
        None => false,
    }
}

/// The title an item has as a todo: its titleized `name` slug when usable,
/// else its `title`; blocked items get the ` [BLOCKED]` suffix.
pub open spec fn todo_title_spec(item: HandoffItem) -> Seq<char> {
    let base = if name_title_usable(ov(item.name)) {
        titleize_spec(ov(item.name)->0)
    } else {
        item.title@
    };
    if ov(item.status) == Some("blocked"@) {
        base + blocked_suffix()
    } else {
        base
    }
}

/// The non-empty elements of `s`, each once, in first-occurrence order.
pub open spec fn dedup_nonempty(s: Seq<Seq<char>>) -> Seq<Seq<char>>
    decreases s.len(),
{
    if s.len() == 0 {
        Seq::<Seq<char>>::empty()
    } else {
        let r = dedup_nonempty(s.drop_last());
        if s.last().len() > 0 && !r.contains(s.last()) {
            r.push(s.last())
        } else {
            r
        }
    }
}

/// The titles under which a todo backend may already know an item.
pub open spec fn title_variants_spec(item: HandoffItem) -> Seq<Seq<char>> {
    let title = item.title@;
    let todo = todo_title_spec(item);
    let blocked_todo = if ends_with(todo, blocked_suffix()) {
        todo
    } else {
        todo + blocked_suffix()
    };
    dedup_nonempty(seq![title, title + blocked_suffix(), todo, blocked_todo])
}

/// The priority an item has: its own when set and non-empty, else the inferred one.
pub open spec fn inferred_priority_spec(item: HandoffItem) -> Seq<char> {
    match ov(item.priority) {
        Some(p) if p.len() > 0 => p,
        _ => infer_priority_spec(item.title@, ov(item.description)),
    }
}

/// Elements of `dedup_nonempty` are non-empty, distinct, and drawn from the input.
pub proof fn lemma_dedup_nonempty(s: Seq<Seq<char>>)
    ensures
        forall|i: int| 0 <= i < dedup_nonempty(s).len() ==> #[trigger] dedup_nonempty(s)[i].len() > 0,
        forall|i: int, j: int|
            0 <= i < j < dedup_nonempty(s).len() ==> dedup_nonempty(s)[i] != dedup_nonempty(s)[j],
        forall|i: int| 0 <= i < dedup_nonempty(s).len() ==> s.contains(#[trigger] dedup_nonempty(s)[i]),
        forall|i: int| 0 <= i < s.len() && #[trigger] s[i].len() > 0 ==> dedup_nonempty(s).contains(s[i]),
    decreases s.len(),
{
    if s.len() > 0 {
        let r = dedup_nonempty(s.drop_last());
        lemma_dedup_nonempty(s.drop_last());
        assert forall|i: int| 0 <= i < r.len() implies s.contains(#[trigger] r[i]) by {
            let k = choose|k: int| 0 <= k < s.drop_last().len() && s.drop_last()[k] == r[i];
            assert(s[k] == r[i]);
        }
        assert forall|i: int| 0 <= i < s.len() && #[trigger] s[i].len() > 0 implies dedup_nonempty(
            s,
        ).contains(s[i]) by {
            if i < s.len() - 1 {
                assert(s.drop_last()[i] == s[i]);
                let k = choose|k: int| 0 <= k < r.len() && r[k] == s[i];
                if s.last().len() > 0 && !r.contains(s.last()) {
                    assert(dedup_nonempty(s)[k] == s[i]);
                }
            } else {
                if !r.contains(s.last()) {
                    assert(dedup_nonempty(s)[r.len() as int] == s[i]);
                }
            }
        }
        if s.last().len() > 0 && !r.contains(s.last()) {
            assert(s.contains(s.last())) by {
                assert(s[s.len() - 1] == s.last());
            }
        }
    }
}

impl HandoffItem {
    /// Is the item `open` or `blocked`?
    pub fn is_open_or_blocked(&self) -> (r: bool)
        ensures
            r == item_active(*self),
    {
        match &self.status {
            Some(s) => str_eq(s.as_str(), "open") || str_eq(s.as_str(), "blocked"),
            None => false,
        }
    }

    /// The item's title as a todo (see `todo_title_spec`).
    pub fn todo_title(&self) -> (r: String)
        ensures
            r@ == todo_title_spec(*self),
    {
        let mut base: Option<String> = None;
        if let Some(name) = &self.name {
            if name.as_str().unicode_len() > 0 && !str_eq(name.as_str(), "null") {
                let t = titleize_slug(name.as_str());
                if t.as_str().unicode_len() > 0 {
                    base = Some(t);
                }
            }
        }
        let mut out = match base {
            Some(t) => t,
            None => self.title.clone(),
        };
        let blocked = match &self.status {
            Some(s) => str_eq(s.as_str(), "blocked"),
            None => false,
        };
        if blocked {
            let suffix = chars_of(" [BLOCKED]");
            push_vec(&mut out, &suffix);
        }
        out
    }

    /// The title used for the item in the todo backend (the todo title).
    pub fn doob_title(&self) -> (r: String)
        ensures
            r@ == todo_title_spec(*self),
    {
        self.todo_title()
    }

    /// The distinct, non-empty titles under which a backend may hold this item.
    pub fn title_variants(&self) -> (r: Vec<String>)
        ensures
            r@.map_values(|s: String| s@) == title_variants_spec(*self),
    {
        let title = self.title.clone();
        let mut blocked_title = self.title.clone();
        let suffix = chars_of(" [BLOCKED]");
        push_vec(&mut blocked_title, &suffix);
        let todo = self.todo_title();
        let todo_chars = chars_of(todo.as_str());
        let blocked_todo = if ends_with_exec(&todo_chars, &suffix) {
            todo.clone()
        } else {
            let mut t = todo.clone();
            push_vec(&mut t, &suffix);
            t
        };
        let candidates: Vec<String> = vec![title, blocked_title, todo, blocked_todo];
        let ghost cs = candidates@.map_values(|s: String| s@);
        assert(cs =~= seq![
            self.title@,
            self.title@ + blocked_suffix(),
            todo_title_spec(*self),
            if ends_with(todo_title_spec(*self), blocked_suffix()) {
                todo_title_spec(*self)
            } else {
                todo_title_spec(*self) + blocked_suffix()
            },
        ]);
        let mut variants: Vec<String> = Vec::new();
        let mut i: usize = 0;
        while i < candidates.len()
            invariant
                i <= candidates@.len(),
                cs == candidates@.map_values(|s: String| s@),
                variants@.map_values(|s: String| s@) == dedup_nonempty(cs.subrange(0, i as int)),
            decreases candidates.len() - i,
        {
            let ghost pre = cs.subrange(0, i as int);
            assert(cs.subrange(0, i + 1).drop_last() =~= pre);
            let value = &candidates[i];
            let mut seen = false;
            let mut j: usize = 0;
            while j < variants.len()
                invariant
                    j <= variants@.len(),
                    seen == exists|k: int| 0 <= k < j && variants@[k]@ == value@,
                decreases variants.len() - j,
            {
                if str_eq(variants[j].as_str(), value.as_str()) {
                    seen = true;
                }
                j = j + 1;
            }
            let ghost vs = variants@.map_values(|s: String| s@);
            assert(seen == vs.contains(value@)) by {
                if seen {
                    let k = choose|k: int| 0 <= k < j && variants@[k]@ == value@;
                    assert(vs[k] == value@);
                }
                if vs.contains(value@) {
                    let k = choose|k: int| 0 <= k < vs.len() && vs[k] == value@;
                    assert(variants@[k]@ == value@);
                }
            }
            if value.as_str().unicode_len() > 0 && !seen {
                variants.push(value.clone());
                assert(variants@.map_values(|s: String| s@) =~= vs.push(value@));
            }
            i = i + 1;
        }
        assert(cs.subrange(0, candidates@.len() as int) =~= cs);
        variants
    }

    /// The item's priority, inferred from its wording when not set.
    pub fn inferred_priority(&self) -> (r: String)
        ensures
            r@ == inferred_priority_spec(*self),
    {
        if let Some(p) = &self.priority {
            if p.as_str().unicode_len() > 0 {
                return p.clone();
            }
        }
        let description = match &self.description {
            Some(d) => Some(d.as_str()),
            None => None,
        };
        infer_priority(self.title.as_str(), description)
    }
}

impl Handoff {
    /// The items whose status is `open` or `blocked`, in order.
    pub fn active_items(&self) -> (r: Vec<&HandoffItem>)
        ensures
            r@.map_values(|x: &HandoffItem| *x) == active_seq(self.items@),
    {
        let mut r: Vec<&HandoffItem> = Vec::new();
        let mut i: usize = 0;
        while i < self.items.len()
            invariant
                i <= self.items@.len(),
                r@.map_values(|x: &HandoffItem| *x) == active_seq(self.items@.subrange(0, i as int)),
            decreases self.items.len() - i,
        {
            let ghost pre = self.items@.subrange(0, i as int);
            assert(self.items@.subrange(0, i + 1).drop_last() =~= pre);
            let ghost rv = r@.map_values(|x: &HandoffItem| *x);
            if self.items[i].is_open_or_blocked() {
                r.push(&self.items[i]);
                assert(r@.map_values(|x: &HandoffItem| *x) =~= rv.push(self.items@[i as int]));
            }
            i = i + 1;
        }
        assert(self.items@.subrange(0, self.items@.len() as int) =~= self.items@);
        r
    }

    /// Sets the project name when it is absent or empty.
    pub fn ensure_project(&mut self, project: &str)
        ensures
            ov(final(self).project) == (if ov(old(self).project) is None || ov(old(
                self,
            ).project)->0.len() == 0 {
                Some(project@)
            } else {
                ov(old(self).project)
            }),
            final(self).id == old(self).id,
            final(self).updated == old(self).updated,
            final(self).items == old(self).items,
            final(self).log == old(self).log,
            final(self).extra == old(self).extra,
    {
        let empty = match &self.project {
            Some(p) => p.as_str().unicode_len() == 0,
            None => true,
        };
        if empty {
            self.project = Some(owned(project));
        }
    }

    /// Sets the id prefix, derived from the project name, when it is absent or empty.
    pub fn ensure_id_prefix(&mut self, project: &str)
        ensures
            ov(final(self).id) == (if ov(old(self).id) is None || ov(old(self).id)->0.len() == 0 {
                Some(id_prefix_spec(project@))
            } else {
                ov(old(self).id)
            }),
            final(self).project == old(self).project,
            final(self).updated == old(self).updated,
            final(self).items == old(self).items,
            final(self).log == old(self).log,
            final(self).extra == old(self).extra,
    {
        let empty = match &self.id {
            Some(p) => p.as_str().unicode_len() == 0,
            None => true,
        };
        if empty {
            self.id = Some(default_id_prefix(project));
        }
    }
}

} // verus!
