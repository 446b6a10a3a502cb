//! Invocation under an alias name: `handon`, `handoff-detect` and the like
//! run the matching `hj` subcommand.

use vstd::prelude::*;

use crate::paths::{file_name, file_name_of};
use crate::text::{owned, str_eq, sv};

verus! {

/// The subcommand an alias name stands for.
pub open spec fn alias_subcommand(name: Seq<char>) -> Option<Seq<char>> {
    if name == "handoff"@ {
        Some("handoff"@)
    } else if name == "handon"@ {
        Some("handon"@)
    } else if name == "handover"@ {
        Some("handover"@)
    } else if name == "handoff-detect"@ {
        Some("detect"@)
    } else if name == "handoff-db"@ {
        Some("handoff-db"@)
    } else if name == "handup"@ {
        Some("handup"@)
    } else {
        None
    }
}

/// The arguments as `hj` reads them: with no arguments, just `hj`; when the
/// program was run under an alias name, `hj` and the alias's subcommand
/// followed by the other arguments; otherwise unchanged.
pub open spec fn rewrite_spec(args: Seq<Seq<char>>) -> Seq<Seq<char>> {
    if args.len() == 0 {
        seq!["hj"@]
    } else {
        match file_name(args[0]) {
            Some(n) => match alias_subcommand(n) {
                Some(sub) => seq!["hj"@, sub] + args.subrange(1, args.len() as int),
                None => args,
            },
            None => args,
        }
    }
}

fn alias_subcommand_exec(name: &str) -> (r: Option<&'static str>)
    ensures
        match r {
            Some(s) => alias_subcommand(name@) == Some(s@),
            None => alias_subcommand(name@) is None,
        },
{
    if str_eq(name, "handoff") {
        Some("handoff")
    } else if str_eq(name, "handon") {
        Some("handon")
    } else if str_eq(name, "handover") {
        Some("handover")
    } else if str_eq(name, "handoff-detect") {
        Some("detect")
    } else if str_eq(name, "handoff-db") {
        Some("handoff-db")
    } else if str_eq(name, "handup") {
        Some("handup")
    } else {
        None
    }
}

/// Rewrites the program arguments for an alias invocation.
pub fn rewrite_args_for_alias(args: Vec<String>) -> (r: Vec<String>)
    ensures
        sv(r@) == rewrite_spec(sv(args@)),
{
    if args.len() == 0 {
        let r = vec![owned("hj")];
        assert(sv(r@) =~= seq!["hj"@]);
        return r;
    }
    let name = match file_name_of(args[0].as_str()) {
        Some(n) => n,
        None => return args,
    };
    let sub = match alias_subcommand_exec(name.as_str()) {
        Some(s) => s,
        None => return args,
    };
    let mut r: Vec<String> = Vec::new();
    r.push(owned("hj"));
    r.push(owned(sub));
    let mut k: usize = 1;
    while k < args.len()
        invariant
            1 <= k <= args@.len(),
            sv(r@) == seq!["hj"@, sub@] + sv(args@).subrange(1, k as int),
        decreases args.len() - k,
    {
        let ghost before = sv(r@);
        r.push(args[k].clone());
        assert(sv(r@) =~= before.push(args@[k as int]@));
        assert(sv(args@).subrange(1, k + 1) =~= sv(args@).subrange(1, k as int).push(args@[k as int]@));
        k = k + 1;
    }
    assert(sv(args@)[0] == args@[0]@);
    r
}

} // verus!

verus! {

proof fn lemma_hj_is_no_alias()
    ensures
        file_name("hj"@) == Some("hj"@),
        alias_subcommand("hj"@) is None,
{
    reveal_strlit("hj");
    reveal_strlit("handoff");
    reveal_strlit("handon");
    reveal_strlit("handover");
    reveal_strlit("handoff-detect");
    reveal_strlit("handoff-db");
    reveal_strlit("handup");
    reveal_strlit(".");
    reveal_strlit("..");
    let s = "hj"@;
    assert(s.drop_last() =~= seq!['h']);
    assert(seq!['h'].drop_last() =~= Seq::<char>::empty());
    let e = Seq::<char>::empty();
    assert(crate::text::split_on(e, '/') == seq![e]);
    let p1 = crate::text::split_on(seq!['h'], '/');
    assert(p1 =~= seq![seq!['h']]) by {
        assert(seq![e].update(0, e.push('h')) =~= seq![seq!['h']]);
        assert(e.push('h') =~= seq!['h']);
    }
    let p2 = crate::text::split_on(s, '/');
    assert(p2 =~= seq![s]) by {
        assert(seq!['h'].push('j') =~= s);
    }
    assert(crate::paths::last_component(p2) == Some(s)) by {
        assert(p2.last() == s);
        assert(s.len() > 0);
        assert(s != "."@);
    }
    assert(s != ".."@);
}

/// Rewriting twice is rewriting once: the rewritten arguments start with
/// `hj`, which is no alias.
pub proof fn law_alias_rewrite_idempotent(args: Seq<Seq<char>>)
    ensures
        rewrite_spec(rewrite_spec(args)) == rewrite_spec(args),
{
    lemma_hj_is_no_alias();
    let r = rewrite_spec(args);
    if r != args {
        assert(r[0] == "hj"@);
    }
}

} // verus!
