//! Points at which a command can be made to fail, so that what it leaves behind
//! can be looked at.

use vstd::prelude::*;
use vstd::string::*;

use crate::error;
use crate::error::{CoreError, ExitClass};
use crate::text;

verus! {

broadcast use vstd::string::group_string_axioms;

/// The exit status of a command that a point ended.
pub const EXIT_STATUS: i32 = 86;

/// What happens at a point.
#[derive(Debug)]
pub enum Effect {
    /// Go on.
    Continue,
    /// End by the kill signal.
    Kill,
    /// End at once with a status.
    Exit(i32),
    /// Wait so many milliseconds, and go on.
    Pause(u64),
    /// Fail.
    Trip(CoreError),
}

/// What is wrong where a point made a command fail.
pub open spec fn tripped(name: Seq<char>) -> error::Fault {
    error::fault(
        ExitClass::Internal,
        "FAILPOINT"@,
        "failpoint `"@ + name + "` tripped"@,
        "disable WT_FAILPOINT and retry the interrupted operation"@,
    )
}

/// What a selection says to do at a point: nothing unless it is the point's name,
/// alone or with a colon behind it; else what stands behind the colon, and a
/// failure where that is nothing that is known.
pub open spec fn effect_of(name: Seq<char>, selected: Option<Seq<char>>, here: bool, r: Effect) -> bool {
    match selected {
        None => r is Continue,
        Some(value) => match text::after(value, name) {
            None => r is Continue,
            Some(tail) => if !here || !(tail.len() == 0 || text::starts(tail, ":"@)) {
                r is Continue
            } else if tail == ":sigkill"@ {
                r is Kill
            } else if tail == ":exit"@ {
                r == Effect::Exit(EXIT_STATUS)
            } else {
                match text::after(tail, ":pause="@) {
                    Some(ms) => match text::parse_natural(ms, u64::MAX as nat) {
                        Some(n) => r matches Effect::Pause(k) && k == n,
                        None => r is Continue,
                    },
                    None => r matches Effect::Trip(e) && e@ == tripped(name),
                }
            },
        },
    }
}

/// Decides what happens at a point: `selected` is the point that was selected, and
/// `here` whether it was selected for this thread.
pub fn check_enabled(name: &str, selected: &Option<String>, here: bool) -> (r: Effect)
    ensures
        effect_of(name@, text::opt(*selected), here, r),
{
    let value = match selected {
        None => return Effect::Continue,
        Some(value) => value,
    };
    if !here {
        return Effect::Continue;
    }
    let tail = match text::strip_prefix(value.as_str(), name) {
        None => return Effect::Continue,
        Some(tail) => tail,
    };
    if tail.as_str().unicode_len() > 0 && !text::starts_with(tail.as_str(), ":") {
        return Effect::Continue;
    }
    if text::same(tail.as_str(), ":sigkill") {
        return Effect::Kill;
    }
    if text::same(tail.as_str(), ":exit") {
        return Effect::Exit(EXIT_STATUS);
    }
    if let Some(ms) = text::strip_prefix(tail.as_str(), ":pause=") {
        return match text::parse_number(ms.as_str(), u64::MAX) {
            Some(n) => Effect::Pause(n),
            None => Effect::Continue,
        };
    }
    let message = "failpoint `".to_owned().concat(name).concat("` tripped");
    Effect::Trip(
        CoreError::new(
            ExitClass::Internal,
            "FAILPOINT",
            message.as_str(),
            "disable WT_FAILPOINT and retry the interrupted operation",
        ),
    )
}

/// Decides what happens at a point where such points are built in: without them
/// nothing ever does.
pub fn check(name: &str, built_in: bool, selected: &Option<String>, here: bool) -> (r: Effect)
    ensures
        if built_in {
            effect_of(name@, text::opt(*selected), here, r)
        } else {
            r is Continue
        },
{
    if built_in {
        check_enabled(name, selected, here)
    } else {
        Effect::Continue
    }
}

/// The point after a worktree was made.
pub fn new_g(built_in: bool, selected: &Option<String>, here: bool) -> (r: Effect)
    ensures
        if built_in {
            effect_of("new.G"@, text::opt(*selected), here, r)
        } else {
            r is Continue
        },
{
    check("new.G", built_in, selected, here)
}

/// The point in the middle of a sync.
pub fn sync_mid(built_in: bool, selected: &Option<String>, here: bool) -> (r: Effect)
    ensures
        if built_in {
            effect_of("sync.mid"@, text::opt(*selected), here, r)
        } else {
            r is Continue
        },
{
    check("sync.mid", built_in, selected, here)
}

/// The point before the last step of a removal.
pub fn remove_8(built_in: bool, selected: &Option<String>, here: bool) -> (r: Effect)
    ensures
        if built_in {
            effect_of("remove.8"@, text::opt(*selected), here, r)
        } else {
            r is Continue
        },
{
    check("remove.8", built_in, selected, here)
}

/// The point before a rendered file is written.
pub fn render_write(built_in: bool, selected: &Option<String>, here: bool) -> (r: Effect)
    ensures
        if built_in {
            effect_of("render.write"@, text::opt(*selected), here, r)
        } else {
            r is Continue
        },
{
    check("render.write", built_in, selected, here)
}

/// The point after a resource was destroyed.
pub fn resource_destroyed(built_in: bool, selected: &Option<String>, here: bool) -> (r: Effect)
    ensures
        if built_in {
            effect_of("resource.destroyed"@, text::opt(*selected), here, r)
        } else {
            r is Continue
        },
{
    check("resource.destroyed", built_in, selected, here)
}

/// The point before a recorded recipe runs.
pub fn resource_frozen(built_in: bool, selected: &Option<String>, here: bool) -> (r: Effect)
    ensures
        if built_in {
            effect_of("resource.frozen"@, text::opt(*selected), here, r)
        } else {
            r is Continue
        },
{
    check("resource.frozen", built_in, selected, here)
}

/// A point that is selected by its bare name is the only one that fails: any other
/// goes on.
pub proof fn only_the_named_point_trips(name: Seq<char>, selected: Seq<char>, r: Effect)
    requires
        effect_of(name, Some(selected), true, r),
        !selected.contains(':'),
    ensures
        (r is Trip) == (name == selected),
        name != selected ==> r is Continue,
{
    reveal_strlit(":");
    reveal_strlit(":sigkill");
    reveal_strlit(":exit");
    reveal_strlit(":pause=");
    if let Some(tail) = text::after(selected, name) {
        assert(tail == selected.skip(name.len() as int));
        if tail.len() == 0 {
            assert(selected =~= selected.take(name.len() as int));
            assert(name == selected);
        } else {
            assert(tail[0] == selected[name.len() as int]);
            if text::starts(tail, ":"@) {
                assert(tail.take(1)[0] == ':');
                assert(selected.contains(':'));
            }
            assert(name != selected);
        }
    } else {
        if name == selected {
            assert(selected.take(name.len() as int) =~= name);
        }
    }
}

} // verus!
