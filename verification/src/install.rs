//! Installing and updating the command line tool with cargo: the install
//! root and the arguments of the cargo invocations.

use vstd::prelude::*;

use crate::detect::path_join;
use crate::text::{owned, str_eq, sv};

verus! {

/// The install root: `~/.local` means `.local` under the home directory
/// (unknown home: none); any other value is taken as it is.
pub open spec fn install_root_spec(value: Seq<char>, home: Option<Seq<char>>) -> Option<Seq<char>> {
    if value == "~/.local"@ {
        match home {
            Some(h) => Some(path_join(h, ".local"@)),
            None => None,
        }
    } else {
        Some(value)
    }
}

/// The install root for a `--root` value.
pub fn expand_home(value: &str, home: Option<&str>) -> (r: Option<String>)
    ensures
        match r {
            Some(s) => install_root_spec(
                value@,
                match home {
                    Some(h) => Some(h@),
                    None => None,
                },
            ) == Some(s@),
            None => install_root_spec(
                value@,
                match home {
                    Some(h) => Some(h@),
                    None => None,
                },
            ) is None,
        },
{
    if str_eq(value, "~/.local") {
        match home {
            Some(h) => Some(crate::detect::join_path(h, ".local")),
            None => None,
        }
    } else {
        Some(owned(value))
    }
}

/// The cargo arguments that install the tool from the repository.
pub fn install_args(root: &str) -> (r: Vec<String>)
    ensures
        sv(r@) == seq!["install"@, "--path"@, "crates/hjx"@, "--bins"@, "--force"@, "--root"@, root@],
{
    let r = vec![
        owned("install"),
        owned("--path"),
        owned("crates/hjx"),
        owned("--bins"),
        owned("--force"),
        owned("--root"),
        owned(root),
    ];
    assert(sv(r@) =~= seq!["install"@, "--path"@, "crates/hjx"@, "--bins"@, "--force"@, "--root"@, root@]);
    r
}

/// The cargo arguments that update the tool from the registry.
pub fn update_args(root: &str) -> (r: Vec<String>)
    ensures
        sv(r@) == seq!["install"@, "hjx"@, "--bins"@, "--locked"@, "--force"@, "--root"@, root@],
{
    let r = vec![
        owned("install"),
        owned("hjx"),
        owned("--bins"),
        owned("--locked"),
        owned("--force"),
        owned("--root"),
        owned(root),
    ];
    assert(sv(r@) =~= seq!["install"@, "hjx"@, "--bins"@, "--locked"@, "--force"@, "--root"@, root@]);
    r
}

/// The line that reports an install or update into `root`.
pub fn install_summary(action: &str, root: &str) -> (r: String)
    ensures
        r@ == action@ + " hj, handoff, handon, handover, handup, handoff-db, and handoff-detect into "@
            + path_join(root@, "bin"@),
{
    let mut r = owned(action);
    r.append(" hj, handoff, handon, handover, handup, handoff-db, and handoff-detect into ");
    r.append(crate::detect::join_path(root, "bin").as_str());
    r
}

} // verus!
