//! A plain model of YAML values and of the string-keyed maps that keep the
//! fields a handoff file carries beyond the known ones.

use vstd::prelude::*;

verus! {

/// A YAML value as the handoff files use it. A number is kept as text, in
/// the form the YAML reader prints it.
#[derive(Debug)]
pub enum YamlValue {
    Null,
    Bool(bool),
    Number(String),
    String(String),
    Sequence(Vec<YamlValue>),
    Mapping(Vec<(YamlValue, YamlValue)>),
    Tagged(String, Box<YamlValue>),
}

/// The value under any number of tags.
pub open spec fn untag(v: YamlValue) -> YamlValue
    decreases v,
{
    match v {
        YamlValue::Tagged(_, inner) => untag(*inner),
        _ => v,
    }
}

/// The string under any tags.
pub open spec fn as_str_spec(v: YamlValue) -> Option<Seq<char>> {
    match untag(v) {
        YamlValue::String(s) => Some(s@),
        _ => None,
    }
}

/// The sequence under any tags.
pub open spec fn as_seq_spec(v: YamlValue) -> Option<Seq<YamlValue>> {
    match untag(v) {
        YamlValue::Sequence(s) => Some(s@),
        _ => None,
    }
}

/// Is `k` the string key `key`?
pub open spec fn is_str_key(k: YamlValue, key: Seq<char>) -> bool {
    match k {
        YamlValue::String(s) => s@ == key,
        _ => false,
    }
}

/// The value of the first entry whose key
/// is that string.
pub open spec fn mapping_get(m: Seq<(YamlValue, YamlValue)>, key: Seq<char>) -> Option<YamlValue>
    decreases m.len(),
{
    if m.len() == 0 {
        None
    } else if is_str_key(m[0].0, key) {
        Some(m[0].1)
    } else {
        mapping_get(m.drop_first(), key)
    }
}

/// Do `a` and `b` hold the same YAML value, node by node?
pub open spec fn same_value(a: YamlValue, b: YamlValue) -> bool
    decreases a,
{
    match a {
        YamlValue::Sequence(xs) => match b {
            YamlValue::Sequence(ys) => {
                &&& xs@.len() == ys@.len()
                &&& forall|i: int| 0 <= i < xs@.len() ==> same_value(#[trigger] xs@[i], ys@[i])
            },
            _ => false,
        },
        YamlValue::Mapping(xs) => match b {
            YamlValue::Mapping(ys) => {
                &&& xs@.len() == ys@.len()
                &&& forall|i: int|
                    0 <= i < xs@.len() ==> same_value(#[trigger] xs@[i].0, ys@[i].0) && same_value(
                        xs@[i].1,
                        ys@[i].1,
                    )
            },
            _ => false,
        },
        YamlValue::Tagged(t, inner) => match b {
            YamlValue::Tagged(u, other) => t@ == u@ && same_value(*inner, *other),
            _ => false,
        },
        _ => a == b,
    }
}

impl YamlValue {
    /// The string under any tags.
    pub fn as_str(&self) -> (r: Option<&str>)
        ensures
            r matches Some(s) ==> as_str_spec(*self) == Some(s@),
            r is None ==> as_str_spec(*self) is None,
        decreases self,
    {
        match self {
            YamlValue::String(s) => Some(s.as_str()),
            YamlValue::Tagged(_, inner) => inner.as_str(),
            _ => None,
        }
    }

    /// The sequence under any tags.
    pub fn as_sequence(&self) -> (r: Option<&Vec<YamlValue>>)
        ensures
            r matches Some(s) ==> as_seq_spec(*self) == Some(s@),
            r is None ==> as_seq_spec(*self) is None,
        decreases self,
    {
        match self {
            YamlValue::Sequence(s) => Some(s),
            YamlValue::Tagged(_, inner) => inner.as_sequence(),
            _ => None,
        }
    }

    /// A copy of the value, node by node.
    pub fn duplicate(&self) -> (r: YamlValue)
        ensures
            same_value(*self, r),
        decreases self,
    {
        match self {
            YamlValue::Null => YamlValue::Null,
            YamlValue::Bool(b) => YamlValue::Bool(*b),
            YamlValue::Number(n) => YamlValue::Number(n.clone()),
            YamlValue::String(s) => YamlValue::String(s.clone()),
            YamlValue::Sequence(items) => {
                let mut out: Vec<YamlValue> = Vec::new();
                let mut i: usize = 0;
                while i < items.len()
                    invariant
                        *self == YamlValue::Sequence(*items),
                        i <= items@.len(),
                        out@.len() == i,
                        forall|j: int| 0 <= j < i ==> same_value(#[trigger] items@[j], out@[j]),
                    decreases items.len() - i,
                {
                    proof {
                        assert(decreases_to!(*self => (*self)->Sequence_0));
                        assert(decreases_to!(*items => items@));
                        assert(decreases_to!(items@ => items@[i as int]));
                    }
                    out.push(items[i].duplicate());
                    i = i + 1;
                }
                YamlValue::Sequence(out)
            },
            YamlValue::Mapping(entries) => {
                let mut out: Vec<(YamlValue, YamlValue)> = Vec::new();
                let mut i: usize = 0;
                while i < entries.len()
                    invariant
                        *self == YamlValue::Mapping(*entries),
                        i <= entries@.len(),
                        out@.len() == i,
                        forall|j: int|
                            0 <= j < i ==> same_value(#[trigger] entries@[j].0, out@[j].0)
                                && same_value(entries@[j].1, out@[j].1),
                    decreases entries.len() - i,
                {
                    proof {
                        assert(decreases_to!(*self => (*self)->Mapping_0));
                        assert(decreases_to!(*entries => entries@));
                        assert(decreases_to!(entries@ => entries@[i as int]));
                        assert(decreases_to!(entries@[i as int] => entries@[i as int].0));
                        assert(decreases_to!(entries@[i as int] => entries@[i as int].1));
                    }
                    let k = entries[i].0.duplicate();
                    let v = entries[i].1.duplicate();
                    out.push((k, v));
                    i = i + 1;
                }
                YamlValue::Mapping(out)
            },
            YamlValue::Tagged(tag, inner) => YamlValue::Tagged(tag.clone(), Box::new(inner.duplicate())),
        }
    }
}

/// No two entries share a key.
pub open spec fn keys_unique(e: Seq<(String, YamlValue)>) -> bool {
    forall|i: int, j: int| 0 <= i < e.len() && 0 <= j < e.len() && i != j ==> e[i].0@ != e[j].0@
}

/// The value stored under `k`, if any.
pub open spec fn lookup(e: Seq<(String, YamlValue)>, k: Seq<char>) -> Option<YamlValue> {
    if exists|i: int| 0 <= i < e.len() && #[trigger] e[i].0@ == k {
        Some(e[choose|i: int| 0 <= i < e.len() && #[trigger] e[i].0@ == k].1)
    } else {
        None
    }
}

pub proof fn lemma_lookup_at(e: Seq<(String, YamlValue)>, j: int)
    requires
        keys_unique(e),
        0 <= j < e.len(),
    ensures
        lookup(e, e[j].0@) == Some(e[j].1),
{
}

/// A map from field names to YAML values, each name once:
/// the fields of a record beyond the ones the model names.
#[derive(Debug)]
pub struct FieldMap {
    entries: Vec<(String, YamlValue)>,
}

impl FieldMap {
    #[verifier::type_invariant]
    spec fn inv(self) -> bool {
        keys_unique(self.entries@)
    }

    /// The value under field name `k`.
    pub closed spec fn get_spec(self, k: Seq<char>) -> Option<YamlValue> {
        lookup(self.entries@, k)
    }

    /// The number of fields.
    pub closed spec fn len_spec(self) -> nat {
        self.entries@.len()
    }

    /// An empty map.
    pub fn new() -> (r: FieldMap)
        ensures
            forall|k: Seq<char>| r.get_spec(k) is None,
            r.len_spec() == 0,
    {
        FieldMap { entries: Vec::new() }
    }

    /// The number of fields.
    pub fn len(&self) -> (r: usize)
        ensures
            r == self.len_spec(),
    {
        self.entries.len()
    }

    /// Sets field `key` to `value`, replacing what it held.
    pub fn insert(&mut self, key: String, value: YamlValue)
        ensures
            final(self).get_spec(key@) == Some(value),
            forall|k: Seq<char>| k != key@ ==> final(self).get_spec(k) == old(self).get_spec(k),
    {
        proof {
            use_type_invariant(&*self);
        }
        let ghost k0 = key@;
        let mut j: usize = 0;
        let mut found = false;
        while j < self.entries.len() && !found
            invariant
                keys_unique(self.entries@),
                key@ == k0,
                j <= self.entries@.len(),
                found ==> j < self.entries@.len() && self.entries@[j as int].0@ == k0,
                !found ==> forall|i: int| 0 <= i < j ==> self.entries@[i].0@ != k0,
            decreases self.entries.len() - j, if found { 0int } else { 1int },
        {
            let a = self.entries[j].0.as_str();
            let b = key.as_str();
            let same = crate::text::str_eq(a, b);
            if same {
                found = true;
            } else {
                j = j + 1;
            }
        }
        let ghost before = self.entries@;
        if found {
            let mut entries: Vec<(String, YamlValue)> = Vec::new();
            std::mem::swap(&mut entries, &mut self.entries);
            entries.set(j, (key, value));
            let ghost after = entries@;
            assert(keys_unique(after));
            proof {
                lemma_lookup_at(after, j as int);
                assert forall|k: Seq<char>| k != k0 implies lookup(after, k) == lookup(before, k) by {
                    if exists|i: int| 0 <= i < before.len() && #[trigger] before[i].0@ == k {
                        let i = choose|i: int| 0 <= i < before.len() && #[trigger] before[i].0@ == k;
                        lemma_lookup_at(before, i);
                        lemma_lookup_at(after, i);
                    } else {
                        assert(!exists|i: int| 0 <= i < after.len() && #[trigger] after[i].0@ == k);
                    }
                }
            }
            self.entries = entries;
        } else {
            assert(j == self.entries.len());
            let mut entries: Vec<(String, YamlValue)> = Vec::new();
            std::mem::swap(&mut entries, &mut self.entries);
            entries.push((key, value));
            let ghost after = entries@;
            assert(keys_unique(after));
            proof {
                lemma_lookup_at(after, before.len() as int);
                assert forall|k: Seq<char>| k != k0 implies lookup(after, k) == lookup(before, k) by {
                    if exists|i: int| 0 <= i < before.len() && #[trigger] before[i].0@ == k {
                        let i = choose|i: int| 0 <= i < before.len() && #[trigger] before[i].0@ == k;
                        lemma_lookup_at(before, i);
                        lemma_lookup_at(after, i);
                    } else {
                        assert(!exists|i: int| 0 <= i < after.len() && #[trigger] after[i].0@ == k);
                    }
                }
            }
            self.entries = entries;
        }
    }

    /// Drops field `key`, if present.
    pub fn remove(&mut self, key: &str)
        ensures
            final(self).get_spec(key@) is None,
            forall|k: Seq<char>| k != key@ ==> final(self).get_spec(k) == old(self).get_spec(k),
    {
        proof {
            use_type_invariant(&*self);
        }
        let mut j: usize = 0;
        let mut found = false;
        while j < self.entries.len() && !found
            invariant
                keys_unique(self.entries@),
                j <= self.entries@.len(),
                found ==> j < self.entries@.len() && self.entries@[j as int].0@ == key@,
                !found ==> forall|i: int| 0 <= i < j ==> self.entries@[i].0@ != key@,
            decreases self.entries.len() - j, if found { 0int } else { 1int },
        {
            if crate::text::str_eq(self.entries[j].0.as_str(), key) {
                found = true;
            } else {
                j = j + 1;
            }
        }
        if found {
            let ghost before = self.entries@;
            let mut entries: Vec<(String, YamlValue)> = Vec::new();
            std::mem::swap(&mut entries, &mut self.entries);
            let _ = entries.remove(j);
            let ghost after = entries@;
            assert(after =~= before.remove(j as int));
            assert(keys_unique(after)) by {
                assert forall|a: int, b: int|
                    0 <= a < after.len() && 0 <= b < after.len() && a != b implies after[a].0@ != after[b].0@ by {
                    let a0 = if a < j { a } else { a + 1 };
                    let b0 = if b < j { b } else { b + 1 };
                    assert(after[a] == before[a0] && after[b] == before[b0]);
                }
            }
            proof {
                assert forall|i: int| 0 <= i < after.len() implies #[trigger] after[i].0@ != key@ by {
                    let i0 = if i < j { i } else { i + 1 };
                    assert(after[i] == before[i0]);
                }
                assert forall|k: Seq<char>| k != key@ implies lookup(after, k) == lookup(before, k) by {
                    if exists|i: int| 0 <= i < before.len() && #[trigger] before[i].0@ == k {
                        let i = choose|i: int| 0 <= i < before.len() && #[trigger] before[i].0@ == k;
                        lemma_lookup_at(before, i);
                        let i1 = if i < j { i } else { i - 1 };
                        assert(after[i1] == before[i]);
                        lemma_lookup_at(after, i1);
                    } else {
                        assert forall|i: int| 0 <= i < after.len() implies #[trigger] after[i].0@ != k by {
                            let i0 = if i < j { i } else { i + 1 };
                            assert(after[i] == before[i0]);
                        }
                    }
                }
            }
            self.entries = entries;
        }
    }

    /// The value of field `key`, if any.
    pub fn get(&self, key: &str) -> (r: Option<&YamlValue>)
        ensures
            r matches Some(v) ==> self.get_spec(key@) == Some(*v),
            r is None ==> self.get_spec(key@) is None,
    {
        proof {
            use_type_invariant(self);
        }
        let mut j: usize = 0;
        while j < self.entries.len()
            invariant
                keys_unique(self.entries@),
                j <= self.entries@.len(),
                forall|i: int| 0 <= i < j ==> self.entries@[i].0@ != key@,
            decreases self.entries.len() - j,
        {
            if crate::text::str_eq(self.entries[j].0.as_str(), key) {
                proof {
                    lemma_lookup_at(self.entries@, j as int);
                }
                return Some(&self.entries[j].1);
            }
            j = j + 1;
        }
        None
    }

    /// Does the map hold field `key`?
    pub fn contains_key(&self, key: &str) -> (r: bool)
        ensures
            r == self.get_spec(key@) is Some,
    {
        self.get(key).is_some()
    }

    /// The fields as name/value pairs (each name once).
    pub fn into_entries(self) -> (r: Vec<(String, YamlValue)>)
        ensures
            keys_unique(r@),
            forall|k: Seq<char>| lookup(r@, k) == self.get_spec(k),
            r@.len() == self.len_spec(),
    {
        proof {
            use_type_invariant(&self);
        }
        self.entries
    }

    /// The fields as name/value pairs (each name once).
    pub fn entries(&self) -> (r: &Vec<(String, YamlValue)>)
        ensures
            keys_unique(r@),
            forall|k: Seq<char>| lookup(r@, k) == self.get_spec(k),
            r@.len() == self.len_spec(),
    {
        proof {
            use_type_invariant(self);
        }
        &self.entries
    }
}

impl Clone for YamlValue {
    fn clone(&self) -> Self {
        self.duplicate()
    }
}

} // verus!
