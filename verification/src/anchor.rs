//! Keeping a label's canonical checkout at the tip of the default branch: when it may
//! be moved, and what is said where it may not.

use vstd::prelude::*;
use vstd::string::*;

use crate::error;
use crate::error::{CoreError, ExitClass};
use crate::output;
use crate::output::{Notice, NoticeLevel};
use crate::text;

verus! {

broadcast use vstd::string::group_string_axioms;

/// How far below a process in the foreground a detached refresh runs.
pub const NICE: i32 = 10;

// ---------------------------------------------------------------------------
// Moving the canonical checkout
// ---------------------------------------------------------------------------

/// What moving a canonical checkout does next.
#[derive(Clone, Copy, Debug, PartialEq, Eq, Structural)]
pub enum MoveStep {
    /// Ask whether origin has the default branch.
    RemoteRef,
    /// Ask which branch is checked out.
    HeadBranch,
    /// Ask for the commit that is checked out.
    Head,
    /// Ask for the commit of origin's default branch.
    RemoteCommit,
    /// Ask for the commit of the local default branch.
    LocalCommit,
    /// Ask whether origin has everything that is here.
    Ancestor,
    /// Ask whether the default branch is checked out.
    Holder,
    /// Move the local default branch to origin's.
    UpdateRef,
    /// Ask whether a file that git tracks was modified.
    Modified,
    /// Check the commit of origin out without a branch.
    Detach,
    /// Merge origin's default branch, as a fast-forward.
    Merge,
    Done,
    Failed,
}

/// What came of a step.
#[derive(Debug)]
pub enum MoveEvent {
    Failure(CoreError),
    Finished,
    Answer(bool),
    Found(Option<String>),
}

/// What is known of an event.
pub enum MoveNews {
    Failure(error::Fault),
    Finished,
    Answer(bool),
    Found(Option<Seq<char>>),
}

impl View for MoveEvent {
    type V = MoveNews;

    open spec fn view(&self) -> MoveNews {
        match self {
            MoveEvent::Failure(e) => MoveNews::Failure(e@),
            MoveEvent::Finished => MoveNews::Finished,
            MoveEvent::Answer(yes) => MoveNews::Answer(*yes),
            MoveEvent::Found(s) => MoveNews::Found(text::opt(*s)),
        }
    }
}

/// A canonical checkout that is being moved. `owned` says that it is this program's
/// own, and so without a branch.
#[derive(Debug)]
pub struct Moving {
    pub label: String,
    pub default: String,
    pub owned: bool,
    pub step: MoveStep,
    pub from: String,
    pub to: String,
    pub local: String,
    /// The default branch is what is checked out.
    pub on_default: bool,
    /// Origin has everything that is here.
    pub behind: bool,
    /// No file that git tracks was modified.
    pub clean: bool,
    pub moved: bool,
    pub notices: Vec<Notice>,
    pub error: Option<CoreError>,
}

/// What is known of a canonical checkout that is being moved.
#[verifier::ext_equal]
pub struct Motion {
    pub label: Seq<char>,
    pub default: Seq<char>,
    pub owned: bool,
    pub step: MoveStep,
    pub from: Seq<char>,
    pub to: Seq<char>,
    pub local: Seq<char>,
    pub on_default: bool,
    pub behind: bool,
    pub clean: bool,
    pub moved: bool,
    pub notices: Seq<output::Said>,
    pub error: Option<error::Fault>,
}

impl View for Moving {
    type V = Motion;

    open spec fn view(&self) -> Motion {
        Motion {
            label: self.label@,
            default: self.default@,
            owned: self.owned,
            step: self.step,
            from: self.from@,
            to: self.to@,
            local: self.local@,
            on_default: self.on_default,
            behind: self.behind,
            clean: self.clean,
            moved: self.moved,
            notices: output::said(self.notices@),
            error: match self.error {
                Some(e) => Some(e@),
                None => None,
            },
        }
    }
}

/// How moving begins.
pub open spec fn begun(label: Seq<char>, default: Seq<char>, owned: bool) -> Motion {
    Motion {
        label,
        default,
        owned,
        step: MoveStep::RemoteRef,
        from: Seq::<char>::empty(),
        to: Seq::<char>::empty(),
        local: Seq::<char>::empty(),
        on_default: false,
        behind: false,
        clean: false,
        moved: false,
        notices: Seq::<output::Said>::empty(),
        error: None,
    }
}

/// The checkout stays where it is, and it is said why.
pub open spec fn stays(m: Motion, level: NoticeLevel, code: Seq<char>, message: Seq<char>) -> Motion {
    Motion {
        step: MoveStep::Done,
        notices: m.notices.push(output::about(level, code, m.label, message)),
        ..m
    }
}

/// A file was modified.
pub open spec fn dirty(m: Motion) -> Motion {
    stays(
        m,
        NoticeLevel::Info,
        "ANCHOR_DIRTY"@,
        "the canonical has modified tracked files; it was not moved"@,
    )
}

/// Moving after something came of its step. What does not belong to the step changes
/// nothing.
pub open spec fn moved_on(m: Motion, news: MoveNews) -> Motion {
    match (m.step, news) {
        (MoveStep::Done, _) | (MoveStep::Failed, _) => m,
        (_, MoveNews::Failure(e)) => Motion { step: MoveStep::Failed, error: Some(e), ..m },
        (MoveStep::RemoteRef, MoveNews::Answer(yes)) => Motion {
            step: if !yes {
                MoveStep::Done
            } else if m.owned {
                MoveStep::RemoteCommit
            } else {
                MoveStep::HeadBranch
            },
            ..m
        },
        (MoveStep::HeadBranch, MoveNews::Found(branch)) => if branch == Some(m.default) {
            Motion { on_default: true, step: MoveStep::Head, ..m }
        } else {
            stays(
                m,
                NoticeLevel::Info,
                "ANCHOR_OFF_DEFAULT"@,
                "the canonical has "@ + (match branch {
                    Some(b) => b,
                    None => "a detached commit"@,
                }) + " checked out, not "@ + m.default + "; it was not moved"@,
            )
        },
        (MoveStep::RemoteCommit, MoveNews::Found(commit)) => match commit {
            None => Motion { step: MoveStep::Done, ..m },
            Some(to) => if m.owned {
                Motion { to, step: MoveStep::LocalCommit, ..m }
            } else if m.from == to {
                Motion { to, step: MoveStep::Done, ..m }
            } else {
                Motion { to, step: MoveStep::Ancestor, ..m }
            },
        },
        (MoveStep::LocalCommit, MoveNews::Found(commit)) => match commit {
            Some(local) => if local == m.to {
                Motion { local, step: MoveStep::Head, ..m }
            } else {
                Motion { local, step: MoveStep::Ancestor, ..m }
            },
            None => Motion { step: MoveStep::Head, ..m },
        },
        (MoveStep::Ancestor, MoveNews::Answer(yes)) => if yes {
            Motion {
                behind: true,
                step: if m.owned {
                    MoveStep::Holder
                } else {
                    MoveStep::Modified
                },
                ..m
            }
        } else {
            stays(
                m,
                NoticeLevel::Info,
                "ANCHOR_DIVERGED"@,
                (if m.owned {
                    "local "@
                } else {
                    "the canonical's "@
                }) + m.default + " has commits origin/"@ + m.default
                    + " does not; it was not moved"@,
            )
        },
        (MoveStep::Holder, MoveNews::Found(holder)) => if holder is Some {
            stays(
                m,
                NoticeLevel::Info,
                "ANCHOR_OFF_DEFAULT"@,
                m.default + " is checked out in a worktree, so the ref was not moved"@,
            )
        } else {
            Motion { step: MoveStep::UpdateRef, ..m }
        },
        (MoveStep::UpdateRef, MoveNews::Finished) => Motion { step: MoveStep::Head, ..m },
        (MoveStep::Head, MoveNews::Found(Some(from))) => if !m.owned {
            Motion { from, step: MoveStep::RemoteCommit, ..m }
        } else if from == m.to {
            Motion { from, step: MoveStep::Done, ..m }
        } else {
            Motion { from, step: MoveStep::Modified, ..m }
        },
        (MoveStep::Modified, MoveNews::Answer(yes)) => if yes {
            dirty(m)
        } else {
            Motion {
                clean: true,
                step: if m.owned {
                    MoveStep::Detach
                } else {
                    MoveStep::Merge
                },
                ..m
            }
        },
        (MoveStep::Detach, MoveNews::Answer(yes)) => if yes {
            Motion { moved: true, step: MoveStep::Done, ..m }
        } else {
            stays(
                m,
                NoticeLevel::Warn,
                "ANCHOR_NOT_MOVED"@,
                "git refused to move the canonical to origin/"@ + m.default,
            )
        },
        (MoveStep::Merge, MoveNews::Answer(yes)) => if yes {
            Motion { moved: true, step: MoveStep::Done, ..m }
        } else {
            stays(
                m,
                NoticeLevel::Warn,
                "ANCHOR_NOT_MOVED"@,
                "git refused to fast-forward the canonical to origin/"@ + m.default,
            )
        },
        _ => m,
    }
}

impl Moving {
    /// Begins to move a canonical checkout.
    pub fn new(label: String, default: String, owned: bool) -> (r: Self)
        ensures
            r@ == begun(label@, default@, owned),
    {
        let r = Moving {
            label,
            default,
            owned,
            step: MoveStep::RemoteRef,
            from: text::owned(""),
            to: text::owned(""),
            local: text::owned(""),
            on_default: false,
            behind: false,
            clean: false,
            moved: false,
            notices: Vec::new(),
            error: None,
        };
        proof {
            reveal_strlit("");
            assert(r.from@ =~= Seq::<char>::empty());
            assert(r.to@ =~= Seq::<char>::empty());
            assert(r.local@ =~= Seq::<char>::empty());
            assert(output::said(r.notices@) =~= Seq::<output::Said>::empty());
        }
        r
    }

    fn stay(&mut self, level: NoticeLevel, code: &str, message: String)
        ensures
            final(self)@ == stays(old(self)@, level, code@, message@),
    {
        let ghost before = output::said(self.notices@);
        let one = output::notice(level, code, self.label.as_str(), message.as_str());
        let ghost o = one@;
        self.notices.push(one);
        self.step = MoveStep::Done;
        proof {
            assert(output::said(self.notices@) =~= before.push(o));
        }
    }

    fn found(&mut self, value: Option<String>)
        requires
            old(self).step != MoveStep::Done,
            old(self).step != MoveStep::Failed,
        ensures
            final(self)@ == moved_on(old(self)@, MoveNews::Found(text::opt(value))),
    {
        match self.step {
            MoveStep::HeadBranch => {
                let same = match &value {
                    Some(b) => text::same(b.as_str(), self.default.as_str()),
                    None => false,
                };
                if same {
                    self.on_default = true;
                    self.step = MoveStep::Head;
                } else {
                    let what = match value {
                        Some(b) => b,
                        None => "a detached commit".to_owned(),
                    };
                    let message = "the canonical has ".to_owned().concat(what.as_str()).concat(
                        " checked out, not ",
                    ).concat(self.default.as_str()).concat("; it was not moved");
                    self.stay(NoticeLevel::Info, "ANCHOR_OFF_DEFAULT", message);
                }
            },
            MoveStep::RemoteCommit => {
                match value {
                    None => {
                        self.step = MoveStep::Done;
                    },
                    Some(to) => {
                        self.step = if self.owned {
                            MoveStep::LocalCommit
                        } else if text::same(self.from.as_str(), to.as_str()) {
                            MoveStep::Done
                        } else {
                            MoveStep::Ancestor
                        };
                        self.to = to;
                    },
                }
            },
            MoveStep::LocalCommit => {
                match value {
                    Some(local) => {
                        self.step = if text::same(local.as_str(), self.to.as_str()) {
                            MoveStep::Head
                        } else {
                            MoveStep::Ancestor
                        };
                        self.local = local;
                    },
                    None => {
                        self.step = MoveStep::Head;
                    },
                }
            },
            MoveStep::Holder => {
                if value.is_some() {
                    let message = self.default.clone().concat(
                        " is checked out in a worktree, so the ref was not moved",
                    );
                    self.stay(NoticeLevel::Info, "ANCHOR_OFF_DEFAULT", message);
                } else {
                    self.step = MoveStep::UpdateRef;
                }
            },
            MoveStep::Head => {
                if let Some(from) = value {
                    self.step = if !self.owned {
                        MoveStep::RemoteCommit
                    } else if text::same(from.as_str(), self.to.as_str()) {
                        MoveStep::Done
                    } else {
                        MoveStep::Modified
                    };
                    self.from = from;
                }
            },
            _ => {},
        }
    }

    fn answered(&mut self, yes: bool)
        requires
            old(self).step != MoveStep::Done,
            old(self).step != MoveStep::Failed,
        ensures
            final(self)@ == moved_on(old(self)@, MoveNews::Answer(yes)),
    {
        match self.step {
            MoveStep::RemoteRef => {
                self.step = if !yes {
                    MoveStep::Done
                } else if self.owned {
                    MoveStep::RemoteCommit
                } else {
                    MoveStep::HeadBranch
                };
            },
            MoveStep::Ancestor => {
                if yes {
                    self.behind = true;
                    self.step = if self.owned {
                        MoveStep::Holder
                    } else {
                        MoveStep::Modified
                    };
                } else {
                    let whose = if self.owned {
                        "local "
                    } else {
                        "the canonical's "
                    };
                    let message = whose.to_owned().concat(self.default.as_str()).concat(
                        " has commits origin/",
                    ).concat(self.default.as_str()).concat(" does not; it was not moved");
                    self.stay(NoticeLevel::Info, "ANCHOR_DIVERGED", message);
                }
            },
            MoveStep::Modified => {
                if yes {
                    let message =
                        "the canonical has modified tracked files; it was not moved".to_owned();
                    self.stay(NoticeLevel::Info, "ANCHOR_DIRTY", message);
                } else {
                    self.clean = true;
                    self.step = if self.owned {
                        MoveStep::Detach
                    } else {
                        MoveStep::Merge
                    };
                }
            },
            MoveStep::Detach => {
                if yes {
                    self.moved = true;
                    self.step = MoveStep::Done;
                } else {
                    let message = "git refused to move the canonical to origin/".to_owned().concat(
                        self.default.as_str(),
                    );
                    self.stay(NoticeLevel::Warn, "ANCHOR_NOT_MOVED", message);
                }
            },
            MoveStep::Merge => {
                if yes {
                    self.moved = true;
                    self.step = MoveStep::Done;
                } else {
                    let message =
                        "git refused to fast-forward the canonical to origin/".to_owned().concat(
                        self.default.as_str(),
                    );
                    self.stay(NoticeLevel::Warn, "ANCHOR_NOT_MOVED", message);
                }
            },
            _ => {},
        }
    }

    /// Takes what came of the step, and goes on to the next.
    pub fn advance(&mut self, event: MoveEvent)
        ensures
            final(self)@ == moved_on(old(self)@, event@),
    {
        match self.step {
            MoveStep::Done | MoveStep::Failed => {
                return;
            },
            _ => {},
        }
        match event {
            MoveEvent::Failure(e) => {
                self.step = MoveStep::Failed;
                self.error = Some(e);
            },
            MoveEvent::Finished => {
                if self.step == MoveStep::UpdateRef {
                    self.step = MoveStep::Head;
                }
            },
            MoveEvent::Answer(yes) => {
                self.answered(yes);
            },
            MoveEvent::Found(value) => {
                self.found(value);
            },
        }
    }
}

/// Moving after a row of events.
pub open spec fn moved_all(m: Motion, news: Seq<MoveNews>) -> Motion
    decreases news.len(),
{
    if news.len() == 0 {
        m
    } else {
        moved_on(moved_all(m, news.drop_last()), news.last())
    }
}

/// What holds of moving at every step.
pub open spec fn safe(m: Motion) -> bool {
    &&& (m.step == MoveStep::Detach ==> m.owned && m.clean)
    &&& (m.step == MoveStep::Merge ==> !m.owned && m.on_default && m.behind && m.clean)
    &&& (m.step == MoveStep::UpdateRef ==> m.owned && m.behind)
    &&& (m.step == MoveStep::Holder ==> m.owned && m.behind)
    &&& (m.step == MoveStep::Modified && !m.owned ==> m.on_default && m.behind)
    &&& ((m.step == MoveStep::Head || m.step == MoveStep::RemoteCommit || m.step
        == MoveStep::Ancestor) && !m.owned ==> m.on_default)
    &&& (m.step == MoveStep::LocalCommit ==> m.owned)
    &&& (m.moved ==> m.clean && (m.owned || (m.on_default && m.behind)))
    &&& (m.moved ==> m.step == MoveStep::Done)
}

/// A canonical checkout with modified files is never moved; a user's own is moved only
/// where the default branch is checked out in it and origin has everything that it
/// has; and the local default branch is moved only to something that has all of it.
pub proof fn only_a_safe_move_is_made(
    label: Seq<char>,
    default: Seq<char>,
    owned: bool,
    news: Seq<MoveNews>,
)
    ensures
        safe(moved_all(begun(label, default, owned), news)),
        moved_all(begun(label, default, owned), news).moved ==> moved_all(
            begun(label, default, owned),
            news,
        ).clean,
        moved_all(begun(label, default, owned), news).owned == owned,
    decreases news.len(),
{
    if news.len() > 0 {
        only_a_safe_move_is_made(label, default, owned, news.drop_last());
    }
}

/// A user's own canonical checkout that has the default branch checked out, is behind
/// origin's and has no modified files is moved, whatever the commits are called; and what
/// it was moved between is what git said.
pub proof fn a_checkout_that_is_behind_is_moved(
    label: Seq<char>,
    default: Seq<char>,
    from: Seq<char>,
    to: Seq<char>,
)
    requires
        from != to,
    ensures
        ({
            let a = moved_on(begun(label, default, false), MoveNews::Answer(true));
            let b = moved_on(a, MoveNews::Found(Some(default)));
            let c = moved_on(b, MoveNews::Found(Some(from)));
            let d = moved_on(c, MoveNews::Found(Some(to)));
            let e = moved_on(d, MoveNews::Answer(true));
            let f = moved_on(e, MoveNews::Answer(false));
            let g = moved_on(f, MoveNews::Answer(true));
            &&& f.step == MoveStep::Merge
            &&& g.step == MoveStep::Done
            &&& g.moved && g.from == from && g.to == to
            &&& g.notices == Seq::<output::Said>::empty()
        }),
{
}

/// A checkout of this program's own that is behind origin is moved: its default branch
/// first, where that is behind too and nobody has it checked out, and then what is checked
/// out, as long as no file was modified.
pub proof fn an_own_checkout_that_is_behind_is_moved(
    label: Seq<char>,
    default: Seq<char>,
    from: Seq<char>,
    to: Seq<char>,
    local: Seq<char>,
)
    requires
        from != to,
    ensures
        ({
            let a = moved_on(begun(label, default, true), MoveNews::Answer(true));
            let b = moved_on(a, MoveNews::Found(Some(to)));
            let c = moved_on(b, MoveNews::Found(Some(local)));
            let d = moved_on(c, MoveNews::Answer(true));
            let e = moved_on(d, MoveNews::Found(None));
            let updated = moved_on(e, MoveNews::Finished);
            let at_head = if local == to {
                c
            } else {
                updated
            };
            let f = moved_on(at_head, MoveNews::Found(Some(from)));
            let g = moved_on(f, MoveNews::Answer(false));
            let h = moved_on(g, MoveNews::Answer(true));
            &&& local != to ==> e.step == MoveStep::UpdateRef
            &&& at_head.step == MoveStep::Head
            &&& moved_on(b, MoveNews::Found(None)).step == MoveStep::Head
            &&& g.step == MoveStep::Detach
            &&& h.step == MoveStep::Done
            &&& h.moved && h.from == from && h.to == to
            &&& h.notices == Seq::<output::Said>::empty()
        }),
{
}

/// A checkout is left where it is only for a reason: origin does not have the branch, or
/// it is there already; another branch is checked out; it has commits that origin does
/// not; someone has the branch checked out; files were modified; or git refused. Each of
/// these but the first two is told.
pub proof fn a_checkout_stays_only_for_a_reason(m: Motion, news: MoveNews)
    requires
        m.step != MoveStep::Done,
        m.step != MoveStep::Failed,
        !m.moved,
    ensures
        ({
            let n = moved_on(m, news);
            let silent = (m.step == MoveStep::RemoteRef && news == MoveNews::Answer(false)) || (
            m.step == MoveStep::RemoteCommit && (news == MoveNews::Found(None) || (!m.owned && news
                == MoveNews::Found(Some(m.from))))) || (m.step == MoveStep::Head && m.owned && news
                == MoveNews::Found(Some(m.to)));
            let told = (m.step == MoveStep::HeadBranch && (news matches MoveNews::Found(b) && b
                != Some(m.default))) || (m.step == MoveStep::Ancestor && news == MoveNews::Answer(
                false,
            )) || (m.step == MoveStep::Holder && (news matches MoveNews::Found(h) && h is Some))
                || (m.step == MoveStep::Modified && news == MoveNews::Answer(true)) || ((m.step
                == MoveStep::Detach || m.step == MoveStep::Merge) && news == MoveNews::Answer(
                false,
            ));
            &&& (n.step == MoveStep::Done && !n.moved) <==> silent || told
            &&& n.moved <==> (m.step == MoveStep::Detach || m.step == MoveStep::Merge) && news
                == MoveNews::Answer(true)
            &&& n.notices.len() == m.notices.len() + (if told {
                1int
            } else {
                0
            })
            &&& n.step == MoveStep::Failed <==> news is Failure
            &&& news matches MoveNews::Failure(e) ==> n.error == Some(e)
        }),
{
}

// ---------------------------------------------------------------------------
// Refreshing
// ---------------------------------------------------------------------------

/// A label that is not registered.
pub fn unregistered(label: &str) -> (r: CoreError)
    ensures
        r@ == error::fault(
            ExitClass::NotFound,
            "NOT_FOUND"@,
            "label `"@ + label@ + "` is not registered"@,
            "run `wt ls` to see registered labels"@,
        ),
{
    let message = "label `".to_owned().concat(label).concat("` is not registered");
    CoreError::new(
        ExitClass::NotFound,
        "NOT_FOUND",
        message.as_str(),
        "run `wt ls` to see registered labels",
    )
}

/// What trying the lock of a refresh comes to: another one runs, or an error.
pub fn anchor_busy(label: &str, e: CoreError) -> (r: Result<Notice, CoreError>)
    ensures
        if e@.code == "LOCK_HELD"@ {
            r matches Ok(n) && n@ == output::about(
                NoticeLevel::Info,
                "ANCHOR_BUSY"@,
                label@,
                "another refresh of "@ + label@ + " is running; nothing was done"@,
            )
        } else {
            r matches Err(own) && own == e
        },
{
    if text::same(e.code.as_str(), "LOCK_HELD") {
        let message = "another refresh of ".to_owned().concat(label).concat(
            " is running; nothing was done",
        );
        Ok(output::notice(NoticeLevel::Info, "ANCHOR_BUSY", label, message.as_str()))
    } else {
        Err(e)
    }
}

/// Whether origin is fetched from.
pub fn fetches(no_fetch: bool, has_origin: bool) -> (r: bool)
    ensures
        r == (!no_fetch && has_origin),
{
    !no_fetch && has_origin
}

/// What is said of a fetch that failed.
pub fn fetch_failed(label: &str, default: &str, why: &str) -> (r: Notice)
    ensures
        r@ == output::about(
            NoticeLevel::Warn,
            "FETCH_FAILED"@,
            label@,
            "origin/"@ + default@ + " was not fetched: "@ + why@ + "; building what is here"@,
        ),
{
    let message = "origin/".to_owned().concat(default).concat(" was not fetched: ").concat(
        why,
    ).concat("; building what is here");
    output::notice(NoticeLevel::Warn, "FETCH_FAILED", label, message.as_str())
}

/// What becomes of the build of a refreshed checkout.
#[derive(Clone, Copy, Debug, PartialEq, Eq, Structural)]
pub enum BuildPlan {
    /// There is nothing to build by.
    Absent,
    /// What is there is fresh.
    Fresh,
    /// It is to be built.
    Build,
}

/// Decides about the build of a refreshed checkout.
pub fn build_plan(has_build: bool, fresh: bool) -> (r: BuildPlan)
    ensures
        r == if !has_build {
            BuildPlan::Absent
        } else if fresh {
            BuildPlan::Fresh
        } else {
            BuildPlan::Build
        },
{
    if !has_build {
        BuildPlan::Absent
    } else if fresh {
        BuildPlan::Fresh
    } else {
        BuildPlan::Build
    }
}

/// How the build went, in a word; `ok` tells of one that was made.
pub fn build_word(plan: BuildPlan, ok: bool) -> (r: &'static str)
    ensures
        r@ == match plan {
            BuildPlan::Absent => "none"@,
            BuildPlan::Fresh => "fresh"@,
            BuildPlan::Build => if ok {
                "ok"@
            } else {
                "failed"@
            },
        },
{
    match plan {
        BuildPlan::Absent => "none",
        BuildPlan::Fresh => "fresh",
        BuildPlan::Build => if ok {
            "ok"
        } else {
            "failed"
        },
    }
}

/// What is said of a build that failed.
pub fn build_failed(target: &str, e: &CoreError) -> (r: Notice)
    ensures
        r@ == output::about(
            NoticeLevel::Warn,
            "BUILD_FAILED"@,
            target@,
            e@.message + "; remedy: "@ + e@.remedy,
        ),
{
    let message = e.message.clone().concat("; remedy: ").concat(e.remedy.as_str());
    output::notice(NoticeLevel::Warn, "BUILD_FAILED", target, message.as_str())
}

/// Whether a checkout that trees are seeded from lacks a build of what is checked out;
/// `fresh` tells of the commit that is, where one is.
pub fn is_cold(seeds: bool, has_build: bool, fresh: Option<bool>) -> (r: bool)
    ensures
        r == (seeds && has_build && fresh == Some(false)),
{
    seeds && has_build && match fresh {
        Some(f) => !f,
        None => false,
    }
}

/// Whether a refresh is started after something was done with a tree: not for a
/// canonical checkout itself, only where the label's is its own and trees are seeded
/// from it, and not where a refresh runs.
pub fn starts_refresh(canonical: bool, identity_ok: bool, seeds: bool, running: bool) -> (r: bool)
    ensures
        r == (!canonical && identity_ok && seeds && !running),
{
    !canonical && identity_ok && seeds && !running
}

/// The arguments of a refresh that is started.
pub fn refresh_args(label: &str, fetch: bool) -> (r: Vec<String>)
    ensures
        text::texts(r@) == if fetch {
            seq!["anchor"@, label@]
        } else {
            seq!["anchor"@, label@, "--no-fetch"@]
        },
{
    let mut args: Vec<String> = Vec::new();
    args.push("anchor".to_owned());
    args.push(label.to_owned());
    if !fetch {
        args.push("--no-fetch".to_owned());
    }
    proof {
        if fetch {
            assert(text::texts(args@) =~= seq!["anchor"@, label@]);
        } else {
            assert(text::texts(args@) =~= seq!["anchor"@, label@, "--no-fetch"@]);
        }
    }
    args
}

/// What is said of a refresh that did not start.
pub fn start_failed(label: &str, why: &str) -> (r: Notice)
    ensures
        r@ == output::about(
            NoticeLevel::Warn,
            "ANCHOR_START_FAILED"@,
            label@,
            "the canonical's refresh did not start: "@ + why@ + "; run `wt anchor "@ + label@
                + "` by hand"@,
        ),
{
    let message = "the canonical's refresh did not start: ".to_owned().concat(why).concat(
        "; run `wt anchor ",
    ).concat(label).concat("` by hand");
    output::notice(NoticeLevel::Warn, "ANCHOR_START_FAILED", label, message.as_str())
}

} // verus!
