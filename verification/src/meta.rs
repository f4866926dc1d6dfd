//! What is kept of trees: assignments as they are given, and what they change.

use vstd::prelude::*;
use vstd::string::*;

use crate::assoc;
use crate::assoc::Assoc;
use crate::context;
use crate::context::{Registry, TreeRec};
use crate::error;
use crate::error::{CoreError, ExitClass};
use crate::git;
use crate::text;

verus! {

broadcast use vstd::string::group_string_axioms;

/// The fault of an assignment without an equals sign.
pub open spec fn no_assignment(value: Seq<char>) -> error::Fault {
    error::fault(
        ExitClass::Usage,
        "META_INVALID"@,
        "metadata assignment `"@ + value + "` is missing `=`"@,
        "use k=v to set metadata or k= to unset it"@,
    )
}

/// The key and the value of an assignment: around its first equals sign.
pub fn assignment(value: &str) -> (r: Result<(String, String), CoreError>)
    ensures
        match text::cut(value@, '=') {
            Some(parts) => r matches Ok(p) && (p.0@, p.1@) == parts,
            None => r matches Err(e) && e@ == no_assignment(value@),
        },
{
    match text::split_once(value, '=') {
        Some(p) => Ok(p),
        None => {
            let message = "metadata assignment `".to_owned().concat(value).concat(
                "` is missing `=`",
            );
            Err(
                CoreError::new(
                    ExitClass::Usage,
                    "META_INVALID",
                    message.as_str(),
                    "use k=v to set metadata or k= to unset it",
                ),
            )
        },
    }
}

/// What a valid assignment changes: an empty value unsets its key.
pub open spec fn edited(
    meta: Map<Seq<char>, Seq<char>>,
    key: Seq<char>,
    value: Seq<char>,
) -> Map<Seq<char>, Seq<char>> {
    if value.len() == 0 {
        meta.remove(key)
    } else {
        meta.insert(key, value)
    }
}

/// What valid assignments change, one after the other.
pub open spec fn edited_all(
    meta: Map<Seq<char>, Seq<char>>,
    edits: Seq<(Seq<char>, Seq<char>)>,
) -> Map<Seq<char>, Seq<char>>
    decreases edits.len(),
{
    if edits.len() == 0 {
        meta
    } else {
        edited(edited_all(meta, edits.drop_last()), edits.last().0, edits.last().1)
    }
}

/// Changes what is kept of a tree by assignments.
pub fn edit(meta: &mut Assoc<String>, edits: &Vec<(String, String)>)
    requires
        old(meta).wf(),
    ensures
        final(meta).wf(),
        assoc::values(final(meta)@) == edited_all(assoc::values(old(meta)@), text::pairs(edits@)),
{
    let ghost start = assoc::values(meta@);
    let ghost all = text::pairs(edits@);
    let mut i: usize = 0;
    while i < edits.len()
        invariant
            i <= edits.len(),
            meta.wf(),
            all == text::pairs(edits@),
            assoc::values(meta@) == edited_all(start, all.take(i as int)),
        decreases edits.len() - i,
    {
        let ghost before = assoc::values(meta@);
        proof {
            assert(all.take(i + 1).drop_last() =~= all.take(i as int));
            assert(all.take(i + 1).last() == (edits@[i as int].0@, edits@[i as int].1@));
        }
        if edits[i].1.as_str().is_empty() {
            let _ = meta.remove(edits[i].0.as_str());
            proof {
                assert(assoc::values(meta@) =~= before.remove(edits@[i as int].0@));
            }
        } else {
            meta.put(edits[i].0.as_str(), edits[i].1.clone());
            proof {
                assert(assoc::values(meta@) =~= before.insert(
                    edits@[i as int].0@,
                    edits@[i as int].1@,
                ));
            }
        }
        i = i + 1;
    }
    proof {
        assert(all.take(edits@.len() as int) =~= all);
    }
}

/// What is kept of a new tree: each key with the last value that is given, an empty one
/// too.
pub open spec fn created(edits: Seq<(Seq<char>, Seq<char>)>) -> Map<Seq<char>, Seq<char>>
    decreases edits.len(),
{
    if edits.len() == 0 {
        Map::empty()
    } else {
        created(edits.drop_last()).insert(edits.last().0, edits.last().1)
    }
}

/// What is kept of a new tree, of valid assignments.
pub fn creation(edits: &Vec<(String, String)>) -> (r: Assoc<String>)
    ensures
        r.wf(),
        assoc::values(r@) == created(text::pairs(edits@)),
{
    let ghost all = text::pairs(edits@);
    let mut meta: Assoc<String> = Assoc::new();
    let mut i: usize = 0;
    proof {
        assert(assoc::values(meta@) =~= created(all.take(0)));
    }
    while i < edits.len()
        invariant
            i <= edits.len(),
            meta.wf(),
            all == text::pairs(edits@),
            assoc::values(meta@) == created(all.take(i as int)),
        decreases edits.len() - i,
    {
        let ghost before = assoc::values(meta@);
        proof {
            assert(all.take(i + 1).drop_last() =~= all.take(i as int));
            assert(all.take(i + 1).last() == (edits@[i as int].0@, edits@[i as int].1@));
        }
        meta.put(edits[i].0.as_str(), edits[i].1.clone());
        proof {
            assert(assoc::values(meta@) =~= before.insert(
                edits@[i as int].0@,
                edits@[i as int].1@,
            ));
        }
        i = i + 1;
    }
    proof {
        assert(all.take(edits@.len() as int) =~= all);
    }
    meta
}

/// What is set last is what is kept; what is unset last is gone.
pub proof fn the_last_assignment_stands(
    meta: Map<Seq<char>, Seq<char>>,
    edits: Seq<(Seq<char>, Seq<char>)>,
    key: Seq<char>,
    value: Seq<char>,
)
    ensures
        value.len() > 0 ==> edited_all(meta, edits.push((key, value))).contains_key(key)
            && edited_all(meta, edits.push((key, value)))[key] == value,
        value.len() == 0 ==> !edited_all(meta, edits.push((key, value))).contains_key(key),
{
    assert(edits.push((key, value)).drop_last() =~= edits);
}

/// What is kept, one assignment on a line each.
pub fn text_of(meta: &Assoc<String>) -> (r: String)
    ensures
        r@ == text::join(crate::env::assignments(meta.entries@), "\n"@),
{
    crate::env::dotenv_text(&meta.entries)
}

/// Changes what is kept of the tree at an address by assignments; everything else that
/// is registered stays. An address without a tree is refused.
pub fn edit_tree(
    registry: &mut Registry,
    label: &str,
    name: &str,
    target: &str,
    edits: &Vec<(String, String)>,
) -> (r: Result<(), CoreError>)
    requires
        forall|i: int| 0 <= i < old(registry).trees@.len() ==> (#[trigger] old(registry).trees@[i]).meta.wf(),
    ensures
        final(registry).labels == old(registry).labels,
        final(registry).tombstones == old(registry).tombstones,
        match git::first_true(context::addressed(old(registry).trees@, label@, name@), 0) {
            None => (r matches Err(e) && e@ == context::unknown(target@))
                && final(registry).trees@ == old(registry).trees@,
            Some(i) => {
                let meta = final(registry).trees@[i].meta;
                &&& r is Ok
                &&& final(registry).trees@.len() == old(registry).trees@.len()
                &&& forall|k: int|
                    0 <= k < old(registry).trees@.len() && k != i ==> #[trigger] final(registry).trees@[k] == old(registry).trees@[k]
                &&& final(registry).trees@[i] == (TreeRec { meta, ..old(registry).trees@[i] })
                &&& meta.wf()
                &&& assoc::values(meta@) == edited_all(
                    assoc::values(old(registry).trees@[i].meta@),
                    text::pairs(edits@),
                )
            },
        },
{
    match registry.tree_at(label, name) {
        None => Err(context::not_found(target)),
        Some(i) => {
            let mut meta = assoc::copy(&registry.trees[i].meta);
            edit(&mut meta, edits);
            registry.trees[i].meta = meta;
            Ok(())
        },
    }
}

/// An assignment sets its key and no other; one without a value takes it away.
pub proof fn an_assignment_is_about_its_key(
    meta: Map<Seq<char>, Seq<char>>,
    key: Seq<char>,
    value: Seq<char>,
    other: Seq<char>,
)
    requires
        other != key,
    ensures
        edited(meta, key, value).contains_key(key) <==> value.len() > 0,
        value.len() > 0 ==> edited(meta, key, value)[key] == value,
        edited(meta, key, value).contains_key(other) == meta.contains_key(other),
        meta.contains_key(other) ==> edited(meta, key, value)[other] == meta[other],
{
}

} // verus!
