//! Cloning a repository: the label and the places of its hub and canonical checkout.

use vstd::prelude::*;
use vstd::string::*;

use crate::error;
use crate::error::{CoreError, ExitClass};
use crate::path;
use crate::register;
use crate::text;

verus! {

broadcast use vstd::string::group_string_axioms;

/// Whether a repository is named by a relative path: neither a URL nor a host with a
/// path, and not from the root.
pub open spec fn is_local(url: Seq<char>) -> bool {
    !text::occurs(url, "://"@) && !text::occurs(url, ":"@) && !path::absolute(url)
}

/// Whether a repository is named by a relative path.
pub fn is_relative_local_path(url: &str) -> (r: bool)
    ensures
        r == is_local(url@),
{
    !text::contains(url, "://") && !text::contains(url, ":") && !path::is_absolute(url)
}

/// The part of a text behind its last slash.
pub open spec fn last_part(s: Seq<char>) -> Seq<char> {
    text::split(s, '/').last()
}

/// The label of a repository that is given none: the last part of its URL.
pub open spec fn stem_of(url: Seq<char>) -> Seq<char> {
    register::trim_all(last_part(register::trim_all(url, "/"@)), ".git"@)
}

/// The label of a repository that is given none.
pub fn stem(url: &str) -> (r: String)
    ensures
        r@ == stem_of(url@),
{
    proof {
        reveal_strlit("/");
        reveal_strlit(".git");
    }
    let whole = register::without_ends(url, "/");
    proof {
        text::lemma_split_nonempty(whole@, '/');
    }
    let parts = text::split_on(whole.as_str(), '/');
    proof {
        assert(text::texts(parts@).len() == parts@.len());
        assert(text::texts(parts@).last() == parts@.last()@);
    }
    register::without_ends(parts[parts.len() - 1].as_str(), ".git")
}

/// Where a clone is put, and from where it is cloned. What is given as a relative path is
/// taken from the current directory.
#[derive(Debug)]
pub struct ClonePlan {
    pub url: String,
    pub base: String,
    pub hub: String,
    pub canonical: String,
}

/// The directory of a clone.
pub open spec fn base_of(
    given: Option<Seq<char>>,
    cwd: Seq<char>,
    home: Seq<char>,
    label: Seq<char>,
) -> Seq<char> {
    match given {
        Some(p) => if path::absolute(p) {
            p
        } else {
            path::joined(cwd, p)
        },
        None => path::joined(path::joined(home, "repos"@), label),
    }
}

/// Plans a clone.
pub fn clone_plan(url: &str, given: &Option<String>, cwd: &str, home: &str, label: &str) -> (r:
    ClonePlan)
    ensures
        r.url@ == if is_local(url@) {
            path::joined(cwd@, url@)
        } else {
            url@
        },
        r.base@ == base_of(text::opt(*given), cwd@, home@, label@),
        r.hub@ == path::joined(r.base@, "hub.git"@),
        r.canonical@ == path::joined(r.base@, "canonical"@),
{
    let base = match given {
        Some(p) => if path::is_absolute(p.as_str()) {
            p.clone()
        } else {
            path::join(cwd, p.as_str())
        },
        None => path::join(path::join(home, "repos").as_str(), label),
    };
    let from = if is_relative_local_path(url) {
        path::join(cwd, url)
    } else {
        url.to_owned()
    };
    let hub = path::join(base.as_str(), "hub.git");
    let canonical = path::join(base.as_str(), "canonical");
    ClonePlan { url: from, base, hub, canonical }
}

/// A repository that is cloned is never looked for inside of its own hub: what it is
/// cloned from is a path from the root, or no path.
pub proof fn a_source_is_not_relative(url: Seq<char>, cwd: Seq<char>)
    requires
        path::absolute(cwd),
        is_local(url),
    ensures
        path::absolute(path::joined(cwd, url)),
{
    let j = path::joined(cwd, url);
    assert(cwd.len() > 0);
    assert(j[0] == cwd[0]);
}

/// Whether a repository is to be cloned, of whether its hub is there; where the hub and
/// the canonical checkout do not belong together, it is refused.
pub fn judge_clone(
    hub: &str,
    canonical: &str,
    hub_is_dir: bool,
    canonical_missing: bool,
    canonical_is_dir: bool,
) -> (r: Result<bool, CoreError>)
    ensures
        if !hub_is_dir && !canonical_missing {
            r matches Err(e) && e@ == error::fault(
                ExitClass::State,
                "PATH_OCCUPIED"@,
                canonical@ + " exists but "@ + hub@ + " does not"@,
                "move or delete it, or choose another --path"@,
            )
        } else if hub_is_dir && !canonical_is_dir {
            r matches Err(e) && e@ == error::fault(
                ExitClass::State,
                "PATH_OCCUPIED"@,
                hub@ + " exists but its canonical checkout "@ + canonical@ + " does not"@,
                "delete the hub and clone again, or choose another --path"@,
            )
        } else {
            r == Ok::<bool, CoreError>(!hub_is_dir)
        },
{
    if !hub_is_dir {
        if !canonical_missing {
            let message = canonical.to_owned().concat(" exists but ").concat(hub).concat(
                " does not",
            );
            return Err(
                CoreError::new(
                    ExitClass::State,
                    "PATH_OCCUPIED",
                    message.as_str(),
                    "move or delete it, or choose another --path",
                ),
            );
        }
        return Ok(true);
    }
    if !canonical_is_dir {
        let message = hub.to_owned().concat(" exists but its canonical checkout ").concat(
            canonical,
        ).concat(" does not");
        return Err(
            CoreError::new(
                ExitClass::State,
                "PATH_OCCUPIED",
                message.as_str(),
                "delete the hub and clone again, or choose another --path",
            ),
        );
    }
    Ok(false)
}

/// A repository is cloned to where it was asked to, from where one stands, or else to its
/// usual place, by its label.
pub proof fn where_a_repository_is_cloned_to(
    given: Seq<char>,
    cwd: Seq<char>,
    home: Seq<char>,
    label: Seq<char>,
)
    ensures
        path::absolute(given) ==> base_of(Some(given), cwd, home, label) == given,
        !path::absolute(given) ==> base_of(Some(given), cwd, home, label) == path::joined(cwd, given),
        base_of(None, cwd, home, label) == path::joined(path::joined(home, "repos"@), label),
{
}

} // verus!
