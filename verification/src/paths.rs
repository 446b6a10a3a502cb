//! The last component of a slash-separated path, as `Path::file_name`
//! gives it on Unix.

use vstd::prelude::*;

use crate::text::{chars_of, split_on, split_vec, string_of, vec_eq, vv};

verus! {

/// The last part of `parts` that names something: empty parts (repeated or
/// trailing slashes) and `.` parts are skipped.
pub open spec fn last_component(parts: Seq<Seq<char>>) -> Option<Seq<char>>
    decreases parts.len(),
{
    if parts.len() == 0 {
        None
    } else if parts.last().len() == 0 || parts.last() == "."@ {
        last_component(parts.drop_last())
    } else {
        Some(parts.last())
    }
}

/// `Path::file_name`: the final component of the path, unless there is
/// none or it is `..`.
pub open spec fn file_name(p: Seq<char>) -> Option<Seq<char>> {
    match last_component(split_on(p, '/')) {
        Some(c) => if c == ".."@ {
            None
        } else {
            Some(c)
        },
        None => None,
    }
}

/// The final component of the path `p`, unless there is none or it is `..`.
pub fn file_name_of(p: &str) -> (r: Option<String>)
    ensures
        match r {
            Some(s) => file_name(p@) == Some(s@),
            None => file_name(p@) is None,
        },
{
    let parts = split_vec(&chars_of(p), '/');
    let ghost ps = vv(parts@);
    assert(ps.take(ps.len() as int) =~= ps);
    let mut k: usize = parts.len();
    while k > 0 && (parts[k - 1].len() == 0 || is_dot(&parts[k - 1]))
        invariant
            k <= parts@.len(),
            ps == vv(parts@),
            last_component(ps) == last_component(ps.take(k as int)),
        decreases k,
    {
        assert(ps.take(k as int).drop_last() =~= ps.take(k - 1));
        assert(ps.take(k as int).last() == parts@[k - 1]@);
        k = k - 1;
    }
    if k == 0 {
        assert(ps.take(0) =~= Seq::<Seq<char>>::empty());
        return None;
    }
    assert(ps.take(k as int).last() == parts@[k - 1]@);
    let last = &parts[k - 1];
    let dots: Vec<char> = vec!['.', '.'];
    proof {
        reveal_strlit("..");
        assert(dots@ =~= ".."@);
    }
    if vec_eq(last, &dots) {
        None
    } else {
        Some(string_of(last.as_slice()))
    }
}

/// Is the part exactly `.`?
fn is_dot(v: &Vec<char>) -> (r: bool)
    ensures
        r == (v@ == "."@),
{
    proof {
        reveal_strlit(".");
    }
    if v.len() == 1 && v[0] == '.' {
        assert(v@ =~= "."@);
        true
    } else {
        false
    }
}

} // verus!
