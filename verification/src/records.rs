//! Reading log entries and commit references from YAML values, the way a
//! handoff file's `log` section is read.

use vstd::prelude::*;

use crate::items::ov;
use crate::model::{CommitRef, LogEntry};
use crate::text::{owned, str_eq};
use crate::validate::{
    commit_view, commit_views, is_log_field, mapping_get_exec, mapping_str, mapping_string,
};
use crate::yaml::{as_seq_spec, as_str_spec, mapping_get, FieldMap, YamlValue};

verus! {

/// The text of a YAML scalar: a string as it is, a number or a boolean as
/// it prints.
pub open spec fn scalar_text(v: YamlValue) -> Option<Seq<char>> {
    match v {
        YamlValue::String(s) => Some(s@),
        YamlValue::Number(n) => Some(n@),
        YamlValue::Bool(b) => Some(
            if b {
                "true"@
            } else {
                "false"@
            },
        ),
        _ => None,
    }
}

/// The commit reference a YAML value stands for: a string or a number is a
/// bare SHA (a SHA such as `7516e53` reads as a number); a mapping with a
/// scalar `sha` is the object form, with its `branch` when that is a string.
/// Anything else is no commit reference.
pub open spec fn commit_from_yaml_spec(v: YamlValue) -> Option<(bool, Seq<char>, Option<Seq<char>>)> {
    match v {
        YamlValue::String(s) => Some((false, s@, None)),
        YamlValue::Number(n) => Some((false, n@, None)),
        YamlValue::Mapping(m) => match mapping_get(m@, "sha"@) {
            Some(sv) => match scalar_text(sv) {
                Some(sha) => Some((true, sha, mapping_str(m@, "branch"@))),
                None => None,
            },
            None => None,
        },
        _ => None,
    }
}

/// The commit references read from a list of YAML values, skipping the
/// values that are none.
pub open spec fn commits_from_yaml(s: Seq<YamlValue>) -> Seq<(bool, Seq<char>, Option<Seq<char>>)>
    decreases s.len(),
{
    if s.len() == 0 {
        Seq::empty()
    } else {
        match commit_from_yaml_spec(s.last()) {
            Some(c) => commits_from_yaml(s.drop_last()).push(c),
            None => commits_from_yaml(s.drop_last()),
        }
    }
}

/// The value of the last entry whose key is (or, under tags, holds) the
/// string `key`: what collecting the entries into a map keeps.
pub open spec fn mapping_last_str(m: Seq<(YamlValue, YamlValue)>, key: Seq<char>) -> Option<YamlValue>
    decreases m.len(),
{
    if m.len() == 0 {
        None
    } else if as_str_spec(m.last().0) == Some(key) {
        Some(m.last().1)
    } else {
        mapping_last_str(m.drop_last(), key)
    }
}

/// `e` is the log entry that a YAML mapping describes.
pub open spec fn log_entry_of_mapping(e: LogEntry, m: Seq<(YamlValue, YamlValue)>) -> bool {
    &&& ov(e.date) == mapping_str(m, "date"@)
    &&& e.summary@ == match mapping_str(m, "summary"@) {
        Some(s) => s,
        None => Seq::<char>::empty(),
    }
    &&& commit_views(e.commits@) == match mapping_get(m, "commits"@) {
        Some(v) => match as_seq_spec(v) {
            Some(s) => commits_from_yaml(s),
            None => Seq::empty(),
        },
        None => Seq::empty(),
    }
    &&& forall|k: Seq<char>|
        #[trigger] e.extra.get_spec(k) == if is_log_field(k) {
            None
        } else {
            mapping_last_str(m, k)
        }
}

/// The printed form of a scalar.
fn scalar_string(v: &YamlValue) -> (r: Option<String>)
    ensures
        ov(r) == scalar_text(*v),
{
    match v {
        YamlValue::String(s) => Some(s.clone()),
        YamlValue::Number(n) => Some(n.clone()),
        YamlValue::Bool(b) => if *b {
            Some(owned("true"))
        } else {
            Some(owned("false"))
        },
        _ => None,
    }
}

impl CommitRef {
    /// Reads a commit reference from a YAML value: a bare SHA (string or
    /// number) or a `{sha, branch}` mapping. `None` when the value is
    /// neither.
    pub fn from_yaml(v: &YamlValue) -> (r: Option<CommitRef>)
        ensures
            match r {
                Some(c) => commit_from_yaml_spec(*v) == Some(commit_view(c)),
                None => commit_from_yaml_spec(*v) is None,
            },
    {
        match v {
            YamlValue::String(s) => Some(CommitRef::Sha(s.clone())),
            YamlValue::Number(n) => Some(CommitRef::Sha(n.clone())),
            YamlValue::Mapping(m) => match mapping_get_exec(m, "sha") {
                Some(sv) => match scalar_string(sv) {
                    Some(sha) => {
                        let branch = mapping_string(m, "branch");
                        Some(CommitRef::Object { sha, branch })
                    },
                    None => None,
                },
                None => None,
            },
            _ => None,
        }
    }
}

/// The commit references of a list of YAML values, skipping the others.
fn commits_from_list(seq: &Vec<YamlValue>) -> (r: Vec<CommitRef>)
    ensures
        commit_views(r@) == commits_from_yaml(seq@),
{
    let mut r: Vec<CommitRef> = Vec::new();
    let mut k: usize = 0;
    while k < seq.len()
        invariant
            k <= seq@.len(),
            commit_views(r@) == commits_from_yaml(seq@.take(k as int)),
        decreases seq.len() - k,
    {
        assert(seq@.take(k + 1).drop_last() =~= seq@.take(k as int));
        assert(seq@.take(k + 1).last() == seq@[k as int]);
        let ghost before = r@;
        match CommitRef::from_yaml(&seq[k]) {
            Some(c) => {
                r.push(c);
                assert(commit_views(r@) =~= commit_views(before).push(commit_view(c)));
            },
            None => {},
        }
        k = k + 1;
    }
    assert(seq@.take(seq@.len() as int) =~= seq@);
    r
}

/// Is `k` one of the fields a log entry holds by name?
fn is_log_field_exec(k: &str) -> (r: bool)
    ensures
        r == is_log_field(k@),
{
    str_eq(k, "date") || str_eq(k, "summary") || str_eq(k, "commits")
}

impl LogEntry {
    /// Reads a log entry from a YAML mapping: `date` and `summary` when they
    /// are strings, the readable entries of `commits`, and every other
    /// string-keyed entry as an extra field.
    pub fn from_yaml_mapping(m: Vec<(YamlValue, YamlValue)>) -> (e: LogEntry)
        ensures
            log_entry_of_mapping(e, m@),
    {
        let ghost m0 = m@;
        let date = mapping_string(&m, "date");
        let summary = match mapping_string(&m, "summary") {
            Some(s) => s,
            None => String::new(),
        };
        let commits = match mapping_get_exec(&m, "commits") {
            Some(v) => match v.as_sequence() {
                Some(seq) => commits_from_list(seq),
                None => Vec::new(),
            },
            None => Vec::new(),
        };
        let n = m.len();
        assert(m0.len() == n);
        let mut rest = m;
        let mut extra = FieldMap::new();
        let mut t: usize = 0;
        while rest.len() > 0
            invariant
                t + rest@.len() == m0.len(),
                m0.len() <= usize::MAX,
                rest@ == m0.subrange(t as int, m0.len() as int),
                forall|k: Seq<char>|
                    #[trigger] extra.get_spec(k) == if is_log_field(k) {
                        None
                    } else {
                        mapping_last_str(m0.take(t as int), k)
                    },
            decreases rest.len(),
        {
            let ghost rb = rest@;
            let (kv, vv) = rest.remove(0);
            assert(m0[t as int] == (kv, vv)) by {
                assert(rb[0] == m0.subrange(t as int, m0.len() as int)[0]);
            }
            assert(rest@ =~= m0.subrange(t + 1, m0.len() as int));
            assert(m0.take(t + 1).drop_last() =~= m0.take(t as int));
            assert(m0.take(t + 1).last() == m0[t as int]);
            match kv.as_str() {
                Some(key) => {
                    if !is_log_field_exec(key) {
                        let ks = owned(key);
                        extra.insert(ks, vv);
                    }
                },
                None => {},
            }
            t = t + 1;
        }
        assert(m0.take(m0.len() as int) =~= m0);
        let e = LogEntry { date, summary, commits, extra };
        assert(ov(e.date) == mapping_str(m0, "date"@));
        assert(e.summary@ == match mapping_str(m0, "summary"@) {
            Some(s) => s,
            None => Seq::<char>::empty(),
        });
        assert(commit_views(e.commits@) == match mapping_get(m0, "commits"@) {
            Some(v) => match as_seq_spec(v) {
                Some(s) => commits_from_yaml(s),
                None => Seq::empty(),
            },
            None => Seq::empty(),
        });
        assert(forall|k: Seq<char>|
            #[trigger] e.extra.get_spec(k) == if is_log_field(k) {
                None
            } else {
                mapping_last_str(m0, k)
            });
        e
    }
}

} // verus!
