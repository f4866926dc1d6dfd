//! Adding the worktree of a new tree: from where it starts, what is fetched for it,
//! and what is said of the branch of a pull request.

use vstd::prelude::*;
use vstd::string::*;

use crate::assoc;
use crate::course;
use crate::error;
use crate::error::{CoreError, ExitClass};
use crate::forge;
use crate::forge::PullRequestHead;
use crate::output;
use crate::output::{Notice, NoticeLevel};
use crate::text;

verus! {

broadcast use vstd::string::group_string_axioms;

// ---------------------------------------------------------------------------
// What is asked for
// ---------------------------------------------------------------------------

/// A pull request, the host that it lives on, and whether that is GitHub.
#[derive(Debug)]
pub struct PullRequest {
    pub number: u64,
    pub host: String,
    pub github: bool,
}

/// What is known of a pull request.
#[verifier::ext_equal]
pub struct Pull {
    pub number: nat,
    pub host: Seq<char>,
    pub github: bool,
}

impl View for PullRequest {
    type V = Pull;

    open spec fn view(&self) -> Pull {
        Pull { number: self.number as nat, host: self.host@, github: self.github }
    }
}

/// What the forge said of a pull request, and the branch of origin that it is, where
/// it is one.
#[derive(Debug)]
pub struct Told {
    pub head: Option<PullRequestHead>,
    pub origin_branch: Option<String>,
}

/// What the forge said.
#[verifier::ext_equal]
pub struct Answer {
    pub head: Option<forge::Head>,
    pub origin_branch: Option<Seq<char>>,
}

/// The head of a pull request, where there is one.
pub open spec fn head_view(head: Option<PullRequestHead>) -> Option<forge::Head> {
    match head {
        Some(h) => Some(h@),
        None => None,
    }
}

impl View for Told {
    type V = Answer;

    open spec fn view(&self) -> Answer {
        Answer { head: head_view(self.head), origin_branch: text::opt(self.origin_branch) }
    }
}

/// What a worktree is added for. `branch` is the branch that the tree has on record,
/// `told` what the forge said, where it was asked already, and `cached` the default
/// branch that is on record.
#[derive(Debug)]
pub struct AddRequest {
    pub target: String,
    pub branch: Option<String>,
    pub from_ref: Option<String>,
    pub no_fetch: bool,
    pub detach: bool,
    pub cached: Option<String>,
    pub told: Option<Told>,
}

/// What is asked for.
#[verifier::ext_equal]
pub struct Wish {
    pub target: Seq<char>,
    pub branch: Option<Seq<char>>,
    pub from_ref: Option<Seq<char>>,
    pub no_fetch: bool,
    pub detach: bool,
    pub cached: Option<Seq<char>>,
    pub told: Option<Answer>,
}

impl View for AddRequest {
    type V = Wish;

    open spec fn view(&self) -> Wish {
        Wish {
            target: self.target@,
            branch: text::opt(self.branch),
            from_ref: text::opt(self.from_ref),
            no_fetch: self.no_fetch,
            detach: self.detach,
            cached: text::opt(self.cached),
            told: match self.told {
                Some(t) => Some(t@),
                None => None,
            },
        }
    }
}

// ---------------------------------------------------------------------------
// What is said of a pull request's branch
// ---------------------------------------------------------------------------

/// What a plain push would do.
pub open spec fn consequence(
    branch: Seq<char>,
    upstream: Option<Seq<char>>,
    number: nat,
    detach: bool,
) -> Seq<char> {
    let mirror = if detach {
        "this detached worktree"@
    } else {
        "branch "@ + branch
    };
    match upstream {
        Some(up) => mirror + " tracks "@ + up + ", which is not pull request "@ + text::decimal(
            number,
        ) + "'s branch, so a plain `git push` updates "@ + up + " instead of the pull request"@,
        None => mirror + " mirrors pull request "@ + text::decimal(number)
            + " but tracks nothing, so a plain `git push` creates a new branch on origin instead of updating the pull request"@,
    }
}

/// What would reach the pull request.
pub open spec fn advice(head: Option<forge::Head>, pull: Pull, no_fetch: bool) -> Seq<char> {
    match head {
        Some(h) => if h.cross_repository {
            match h.owner {
                Some(owner) => "the pull request was opened from "@ + owner
                    + "'s fork; to update it, push to that fork's `"@ + h.branch + "` branch"@,
                None => "the pull request was opened from a fork; to update it, push to the fork's `"@
                    + h.branch + "` branch"@,
            }
        } else {
            "the pull request is branch `"@ + h.branch
                + "`; to update it, push there: `git push origin HEAD:"@ + h.branch + "`"@
        },
        None => if no_fetch {
            "retry without --no-fetch to check out the pull request's own branch"@
        } else if pull.github {
            "set the branch's upstream to the pull request's branch on origin to push to it"@
        } else {
            "wt asks only GitHub for a pull request's branch, not "@ + pull.host
                + "; pass `--from origin/<branch>` to work on the pull request's own branch"@
        },
    }
}

/// The notice of a worktree that does not track the branch of its pull request.
pub open spec fn untracked(
    target: Seq<char>,
    branch: Seq<char>,
    upstream: Option<Seq<char>>,
    pull: Pull,
    head: Option<forge::Head>,
    detach: bool,
    no_fetch: bool,
) -> output::Said {
    output::about(
        NoticeLevel::Warn,
        "PR_BRANCH_UNTRACKED"@,
        target,
        consequence(branch, upstream, pull.number, detach) + "; "@ + advice(head, pull, no_fetch),
    )
}

fn consequence_text(branch: &str, upstream: &Option<String>, number: u64, detach: bool) -> (r:
    String)
    ensures
        r@ == consequence(branch@, text::opt(*upstream), number as nat, detach),
{
    let mirror = if detach {
        "this detached worktree".to_owned()
    } else {
        "branch ".to_owned().concat(branch)
    };
    let number = text::decimal_of(number);
    match upstream {
        Some(up) => mirror.concat(" tracks ").concat(up.as_str()).concat(
            ", which is not pull request ",
        ).concat(number.as_str()).concat("'s branch, so a plain `git push` updates ").concat(
            up.as_str(),
        ).concat(" instead of the pull request"),
        None => mirror.concat(" mirrors pull request ").concat(number.as_str()).concat(
            " but tracks nothing, so a plain `git push` creates a new branch on origin instead of updating the pull request",
        ),
    }
}

fn advice_text(head: &Option<PullRequestHead>, pull: &PullRequest, no_fetch: bool) -> (r: String)
    ensures
        r@ == advice(head_view(*head), pull@, no_fetch),
{
    match head {
        Some(h) => if h.cross_repository {
            match &h.owner {
                Some(owner) => "the pull request was opened from ".to_owned().concat(
                    owner.as_str(),
                ).concat("'s fork; to update it, push to that fork's `").concat(
                    h.branch.as_str(),
                ).concat("` branch"),
                None => "the pull request was opened from a fork; to update it, push to the fork's `".to_owned().concat(
                h.branch.as_str()).concat("` branch"),
            }
        } else {
            "the pull request is branch `".to_owned().concat(h.branch.as_str()).concat(
                "`; to update it, push there: `git push origin HEAD:",
            ).concat(h.branch.as_str()).concat("`")
        },
        None => if no_fetch {
            "retry without --no-fetch to check out the pull request's own branch".to_owned()
        } else if pull.github {
            "set the branch's upstream to the pull request's branch on origin to push to it".to_owned()
        } else {
            "wt asks only GitHub for a pull request's branch, not ".to_owned().concat(
                pull.host.as_str(),
            ).concat("; pass `--from origin/<branch>` to work on the pull request's own branch")
        },
    }
}

/// Says that a worktree does not track the branch of its pull request, what a push
/// would do, and what would reach the pull request.
pub fn untracked_pr_notice(
    target: &str,
    branch: &str,
    upstream: &Option<String>,
    pull: &PullRequest,
    head: &Option<PullRequestHead>,
    detach: bool,
    no_fetch: bool,
) -> (r: Notice)
    ensures
        r@ == untracked(
            target@,
            branch@,
            text::opt(*upstream),
            pull@,
            head_view(*head),
            detach,
            no_fetch,
        ),
{
    let message = consequence_text(branch, upstream, pull.number, detach).concat("; ").concat(
        advice_text(head, pull, no_fetch).as_str(),
    );
    output::notice(NoticeLevel::Warn, "PR_BRANCH_UNTRACKED", target, message.as_str())
}

// ---------------------------------------------------------------------------
// The order of adding
// ---------------------------------------------------------------------------

/// What adding a worktree does next.
#[derive(Clone, Copy, Debug, PartialEq, Eq, Structural)]
pub enum AddStep {
    /// Ask whether the repository has an origin.
    Origin,
    /// Ask which pull request is wanted.
    Request,
    /// Ask which branch a tree without one on record is checked against.
    Branch,
    /// Ask where the branch is checked out.
    Holder,
    /// Ask whether the branch is there.
    LocalRef,
    /// Ask the forge for the head of the pull request.
    Forge,
    /// Find the default branch.
    DefaultBranch,
    /// Fetch the branches that are wanted.
    FetchNamed,
    /// Fetch all branches.
    FetchAll,
    /// Ask whether origin has the pull request's branch.
    TrackedRef,
    /// Fetch the pull request.
    FetchPull,
    /// Ask whether the pull request is there.
    PullRef,
    /// Find out what was asked to start from.
    Resolve,
    /// Ask whether origin has the default branch.
    OriginDefault,
    /// Find the default branch, which was on record until now.
    DefaultAgain,
    /// Put the default branch on record.
    Cache,
    /// Add the worktree.
    Add,
    /// Speed up the status of the worktree.
    Accelerate,
    /// Ask what the branch tracks.
    Upstream,
    /// Ask for the commit of the local branch.
    LocalCommit,
    /// Ask for the commit of origin's branch.
    RemoteCommit,
    /// The worktree is there.
    Done,
    /// It failed.
    Failed,
}

/// What came of a step.
#[derive(Debug)]
pub enum AddEvent {
    /// The step failed.
    Failure(CoreError),
    /// The step was done.
    Finished,
    /// Whether what was asked about is there.
    Exists(bool),
    /// The pull request that is wanted.
    Wanted(Option<PullRequest>),
    /// A branch, a path, an upstream or a commit, where there is one.
    Found(Option<String>),
    /// What the forge said.
    Said(Told),
    /// What there is to start from, and whether a branch of origin is passed over
    /// for it.
    Start { reference: String, shadows: bool },
}

/// What is known of an event.
pub enum Happened {
    Failure(error::Fault),
    Finished,
    Exists(bool),
    Wanted(Option<Pull>),
    Found(Option<Seq<char>>),
    Said(Answer),
    Start { reference: Seq<char>, shadows: bool },
}

impl View for AddEvent {
    type V = Happened;

    open spec fn view(&self) -> Happened {
        match self {
            AddEvent::Failure(e) => Happened::Failure(e@),
            AddEvent::Finished => Happened::Finished,
            AddEvent::Exists(yes) => Happened::Exists(*yes),
            AddEvent::Wanted(p) => Happened::Wanted(pull_view(*p)),
            AddEvent::Found(s) => Happened::Found(text::opt(*s)),
            AddEvent::Said(t) => Happened::Said(t@),
            AddEvent::Start { reference, shadows } => Happened::Start {
                reference: reference@,
                shadows: *shadows,
            },
        }
    }
}

/// The pull request, where there is one.
pub open spec fn pull_view(p: Option<PullRequest>) -> Option<Pull> {
    match p {
        Some(pull) => Some(pull@),
        None => None,
    }
}

/// An error, where there is one.
pub open spec fn fault_view(e: Option<CoreError>) -> Option<error::Fault> {
    match e {
        Some(error) => Some(error@),
        None => None,
    }
}

/// A worktree that is being added.
#[derive(Debug)]
pub struct Adding {
    pub request: AddRequest,
    pub step: AddStep,
    pub origin: bool,
    pub pull: Option<PullRequest>,
    pub branch: String,
    /// Nothing else has the branch checked out.
    pub free: bool,
    pub exists: bool,
    pub head: Option<PullRequestHead>,
    pub tracked_branch: Option<String>,
    pub asked: bool,
    pub default: String,
    pub discovered: bool,
    pub narrow: Option<CoreError>,
    pub start: String,
    pub local: Option<String>,
    pub notices: Vec<Notice>,
    pub error: Option<CoreError>,
}

/// What is known of a worktree that is being added.
#[verifier::ext_equal]
pub struct Progress {
    pub wish: Wish,
    pub step: AddStep,
    pub origin: bool,
    pub pull: Option<Pull>,
    pub branch: Seq<char>,
    pub free: bool,
    pub exists: bool,
    pub head: Option<forge::Head>,
    pub tracked_branch: Option<Seq<char>>,
    pub asked: bool,
    pub default: Seq<char>,
    pub discovered: bool,
    pub narrow: Option<error::Fault>,
    pub start: Seq<char>,
    pub local: Option<Seq<char>>,
    pub notices: Seq<output::Said>,
    pub error: Option<error::Fault>,
}

impl View for Adding {
    type V = Progress;

    open spec fn view(&self) -> Progress {
        Progress {
            wish: self.request@,
            step: self.step,
            origin: self.origin,
            pull: pull_view(self.pull),
            branch: self.branch@,
            free: self.free,
            exists: self.exists,
            head: head_view(self.head),
            tracked_branch: text::opt(self.tracked_branch),
            asked: self.asked,
            default: self.default@,
            discovered: self.discovered,
            narrow: fault_view(self.narrow),
            start: self.start@,
            local: text::opt(self.local),
            notices: output::said(self.notices@),
            error: fault_view(self.error),
        }
    }
}

/// How adding a worktree begins.
pub open spec fn begun(wish: Wish) -> Progress {
    Progress {
        wish,
        step: AddStep::Origin,
        origin: false,
        pull: None,
        branch: Seq::<char>::empty(),
        free: false,
        exists: false,
        head: None,
        tracked_branch: None,
        asked: false,
        default: Seq::<char>::empty(),
        discovered: false,
        narrow: None,
        start: Seq::<char>::empty(),
        local: None,
        notices: Seq::<output::Said>::empty(),
        error: None,
    }
}

/// Adding that failed.
pub open spec fn failed(a: Progress, e: error::Fault) -> Progress {
    Progress { step: AddStep::Failed, error: Some(e), ..a }
}

/// Whether a branch that is there is checked out as it is.
pub open spec fn reuses(a: Progress) -> bool {
    a.exists && !a.wish.detach
}

/// The local branch as a reference.
pub open spec fn local_ref(branch: Seq<char>) -> Seq<char> {
    "refs/heads/"@ + branch
}

/// A branch of origin as a reference.
pub open spec fn origin_ref(branch: Seq<char>) -> Seq<char> {
    "refs/remotes/origin/"@ + branch
}

/// With what the forge said, and the default branch next: the one on record stands
/// for it where nothing is fetched.
pub open spec fn with_answer(a: Progress, answer: Answer, asked: bool) -> Progress {
    let b = Progress {
        head: answer.head,
        tracked_branch: answer.origin_branch,
        asked,
        ..a
    };
    if b.wish.no_fetch && b.wish.cached is Some {
        with_fetched(Progress { default: b.wish.cached->0, discovered: false, ..b })
    } else {
        Progress { step: AddStep::DefaultBranch, ..b }
    }
}

/// With the default branch: what is fetched, or what comes after.
pub open spec fn with_default(a: Progress) -> Progress {
    if a.origin && !a.wish.no_fetch {
        Progress { step: AddStep::FetchNamed, ..a }
    } else {
        with_fetched(a)
    }
}

/// With what was fetched: where the worktree starts.
pub open spec fn with_fetched(a: Progress) -> Progress {
    if a.pull is Some {
        if reuses(a) {
            with_start(a, local_ref(a.branch))
        } else if a.tracked_branch is Some {
            Progress { step: AddStep::TrackedRef, ..a }
        } else if a.wish.no_fetch {
            Progress { step: AddStep::PullRef, ..a }
        } else {
            Progress { step: AddStep::FetchPull, ..a }
        }
    } else if a.wish.from_ref is Some {
        Progress { step: AddStep::Resolve, ..a }
    } else {
        Progress { step: AddStep::OriginDefault, ..a }
    }
}

/// With the start: the default branch is put on record where it is another.
pub open spec fn with_start(a: Progress, start: Seq<char>) -> Progress {
    let b = Progress { start, ..a };
    if b.discovered {
        recording(b)
    } else {
        Progress { step: AddStep::DefaultAgain, ..b }
    }
}

/// With the default branch for certain.
pub open spec fn recording(a: Progress) -> Progress {
    Progress {
        step: if a.wish.cached == Some(a.default) {
            AddStep::Add
        } else {
            AddStep::Cache
        },
        ..a
    }
}

/// With what the branch of a pull request tracks: praised where the forge and git
/// agree that it is the pull request's, warned about where it is not or was asked
/// about.
pub open spec fn with_upstream(a: Progress, pull: Pull, upstream: Option<Seq<char>>) -> Progress {
    let own = upstream == Some("origin/"@ + a.branch);
    let notices = if own && a.tracked_branch == Some(a.branch) {
        a.notices.push(
            output::about(
                NoticeLevel::Info,
                "PR_BRANCH_TRACKED"@,
                a.wish.target,
                "branch `"@ + a.branch + "` tracks origin/"@ + a.branch
                    + ", so `git push` updates pull request "@ + text::decimal(pull.number),
            ),
        )
    } else if a.asked || !own {
        a.notices.push(
            untracked(
                a.wish.target,
                a.branch,
                upstream,
                pull,
                a.head,
                a.wish.detach,
                a.wish.no_fetch,
            ),
        )
    } else {
        a.notices
    };
    Progress {
        notices,
        step: if reuses(a) && a.tracked_branch == Some(a.branch) {
            AddStep::LocalCommit
        } else {
            AddStep::Done
        },
        ..a
    }
}

/// The reference that a pull request is mirrored under.
pub open spec fn mirror_ref(number: nat) -> Seq<char> {
    "refs/wt/pr/"@ + text::decimal(number)
}

/// The fault of a pull request that is not there.
pub open spec fn no_pull(number: nat) -> error::Fault {
    error::fault(
        ExitClass::NotFound,
        "NOT_FOUND"@,
        "pull request "@ + text::decimal(number) + " is not available locally"@,
        "retry without --no-fetch or verify the pull request number"@,
    )
}

/// Adding a worktree after something came of its step. What does not belong to the
/// step changes nothing.
pub open spec fn added(a: Progress, event: Happened) -> Progress {
    match (a.step, event) {
        (AddStep::Done, _) | (AddStep::Failed, _) => a,
        (AddStep::FetchNamed, Happened::Failure(e)) => if e.code == "TIMEOUT"@ {
            failed(a, e)
        } else {
            Progress { narrow: Some(e), step: AddStep::FetchAll, ..a }
        },
        (AddStep::FetchAll, Happened::Failure(e)) => failed(
            a,
            match a.narrow {
                Some(narrow) => narrow,
                None => e,
            },
        ),
        (AddStep::Accelerate, Happened::Failure(_)) | (AddStep::Accelerate, Happened::Finished) =>
        match a.pull {
            Some(pull) => if a.wish.detach {
                with_upstream(a, pull, None)
            } else {
                Progress { step: AddStep::Upstream, ..a }
            },
            None => Progress { step: AddStep::Done, ..a },
        },
        (_, Happened::Failure(e)) => failed(a, e),
        (AddStep::Origin, Happened::Exists(yes)) => Progress {
            origin: yes,
            step: AddStep::Request,
            ..a
        },
        (AddStep::Request, Happened::Wanted(pull)) => match a.wish.branch {
            Some(branch) => Progress { pull, branch, step: AddStep::Holder, ..a },
            None => Progress { pull, step: AddStep::Branch, ..a },
        },
        (AddStep::Branch, Happened::Found(Some(branch))) => Progress {
            branch,
            step: AddStep::Holder,
            ..a
        },
        (AddStep::Holder, Happened::Found(holder)) => match holder {
            Some(p) => failed(
                a,
                error::fault(
                    ExitClass::Conflict,
                    "BRANCH_IN_USE"@,
                    "branch `"@ + a.branch + "` is checked out at "@ + p,
                    "choose another branch or remove the worktree that holds it"@,
                ),
            ),
            None => Progress { free: true, step: AddStep::LocalRef, ..a },
        },
        (AddStep::LocalRef, Happened::Exists(yes)) => {
            let b = Progress { exists: yes, ..a };
            match b.wish.told {
                Some(answer) => with_answer(b, answer, true),
                None => if reuses(b) {
                    with_answer(b, Answer { head: None, origin_branch: None }, false)
                } else {
                    Progress { step: AddStep::Forge, ..b }
                },
            }
        },
        (AddStep::Forge, Happened::Said(answer)) => with_answer(a, answer, true),
        (AddStep::DefaultBranch, Happened::Found(Some(default))) => with_default(
            Progress { default, discovered: true, ..a },
        ),
        (AddStep::FetchNamed, Happened::Finished) | (AddStep::FetchAll, Happened::Finished) =>
        with_fetched(a),
        (AddStep::TrackedRef, Happened::Exists(yes)) => match (a.tracked_branch, a.pull) {
            (Some(branch), Some(pull)) => if yes {
                with_start(a, origin_ref(branch))
            } else {
                failed(
                    a,
                    error::fault(
                        ExitClass::NotFound,
                        "NOT_FOUND"@,
                        "pull request "@ + text::decimal(pull.number) + " is branch `"@ + branch
                            + "`, which origin does not have"@,
                        "verify the pull request is still open and its branch was not deleted"@,
                    ),
                )
            },
            _ => a,
        },
        (AddStep::FetchPull, Happened::Finished) => Progress { step: AddStep::PullRef, ..a },
        (AddStep::PullRef, Happened::Exists(yes)) => match a.pull {
            Some(pull) => if yes {
                with_start(a, mirror_ref(pull.number))
            } else {
                failed(a, no_pull(pull.number))
            },
            None => a,
        },
        (AddStep::Resolve, Happened::Start { reference, shadows }) => with_start(
            Progress {
                notices: if shadows {
                    a.notices.push(
                        output::about(
                            NoticeLevel::Warn,
                            "FROM_LOCAL_SHADOWS_REMOTE"@,
                            a.wish.target,
                            "local branch takes precedence over a different origin branch"@,
                        ),
                    )
                } else {
                    a.notices
                },
                ..a
            },
            reference,
        ),
        (AddStep::OriginDefault, Happened::Exists(yes)) => with_start(
            a,
            if yes {
                origin_ref(a.default)
            } else {
                local_ref(a.default)
            },
        ),
        (AddStep::DefaultAgain, Happened::Found(Some(default))) => recording(
            Progress { default, ..a },
        ),
        (AddStep::Cache, Happened::Finished) => Progress { step: AddStep::Add, ..a },
        (AddStep::Add, Happened::Finished) => Progress { step: AddStep::Accelerate, ..a },
        (AddStep::Upstream, Happened::Found(upstream)) => match a.pull {
            Some(pull) => with_upstream(a, pull, upstream),
            None => a,
        },
        (AddStep::LocalCommit, Happened::Found(commit)) => Progress {
            local: commit,
            step: AddStep::RemoteCommit,
            ..a
        },
        (AddStep::RemoteCommit, Happened::Found(commit)) => Progress {
            notices: if commit is Some && a.local != commit {
                a.notices.push(
                    output::about(
                        NoticeLevel::Warn,
                        "FROM_LOCAL_SHADOWS_REMOTE"@,
                        a.wish.target,
                        "local branch `"@ + a.branch + "` is not at origin/"@ + a.branch
                            + ", and the worktree starts from the local branch"@,
                    ),
                )
            } else {
                a.notices
            },
            step: AddStep::Done,
            ..a
        },
        _ => a,
    }
}

fn say(notices: &mut Vec<Notice>, one: Notice)
    ensures
        output::said(final(notices)@) == output::said(old(notices)@).push(one@),
{
    let ghost before = output::said(notices@);
    let ghost o = one@;
    notices.push(one);
    proof {
        assert(output::said(notices@) =~= before.push(o));
    }
}

impl Adding {
    /// Begins to add a worktree.
    pub fn new(request: AddRequest) -> (r: Self)
        ensures
            r@ == begun(request@),
    {
        let r = Adding {
            request,
            step: AddStep::Origin,
            origin: false,
            pull: None,
            branch: text::owned(""),
            free: false,
            exists: false,
            head: None,
            tracked_branch: None,
            asked: false,
            default: text::owned(""),
            discovered: false,
            narrow: None,
            start: text::owned(""),
            local: None,
            notices: Vec::new(),
            error: None,
        };
        proof {
            reveal_strlit("");
            assert(r.branch@ =~= Seq::<char>::empty());
            assert(r.start@ =~= Seq::<char>::empty());
            assert(r.default@ =~= Seq::<char>::empty());
            assert(output::said(r.notices@) =~= Seq::<output::Said>::empty());
        }
        r
    }

    fn fail(&mut self, e: CoreError)
        ensures
            final(self)@ == failed(old(self)@, e@),
    {
        self.step = AddStep::Failed;
        self.error = Some(e);
    }

    fn reuses(&self) -> (r: bool)
        ensures
            r == reuses(self@),
    {
        self.exists && !self.request.detach
    }

    fn record(&mut self)
        ensures
            final(self)@ == recording(old(self)@),
    {
        self.step = if text::is_some_text(&self.request.cached, self.default.as_str()) {
            AddStep::Add
        } else {
            AddStep::Cache
        };
    }

    fn start_from(&mut self, start: String)
        ensures
            final(self)@ == with_start(old(self)@, start@),
    {
        self.start = start;
        if self.discovered {
            self.record();
        } else {
            self.step = AddStep::DefaultAgain;
        }
    }

    fn fetched(&mut self)
        ensures
            final(self)@ == with_fetched(old(self)@),
    {
        if self.pull.is_some() {
            if self.reuses() {
                let start = "refs/heads/".to_owned().concat(self.branch.as_str());
                self.start_from(start);
            } else if self.tracked_branch.is_some() {
                self.step = AddStep::TrackedRef;
            } else if self.request.no_fetch {
                self.step = AddStep::PullRef;
            } else {
                self.step = AddStep::FetchPull;
            }
        } else if self.request.from_ref.is_some() {
            self.step = AddStep::Resolve;
        } else {
            self.step = AddStep::OriginDefault;
        }
    }

    fn take_answer(&mut self, told: Told, asked: bool)
        ensures
            final(self)@ == with_answer(old(self)@, told@, asked),
    {
        self.head = told.head;
        self.tracked_branch = told.origin_branch;
        self.asked = asked;
        let recorded = match &self.request.cached {
            Some(d) => if self.request.no_fetch {
                Some(d.clone())
            } else {
                None
            },
            None => None,
        };
        match recorded {
            Some(d) => {
                self.default = d;
                self.discovered = false;
                self.fetched();
            },
            None => {
                self.step = AddStep::DefaultBranch;
            },
        }
    }

    fn upstream_known(&mut self, pull: &PullRequest, upstream: Option<String>)
        ensures
            final(self)@ == with_upstream(old(self)@, pull@, text::opt(upstream)),
    {
        let expected = "origin/".to_owned().concat(self.branch.as_str());
        let own = text::is_some_text(&upstream, expected.as_str());
        let named = text::is_some_text(&self.tracked_branch, self.branch.as_str());
        if own && named {
            let message = "branch `".to_owned().concat(self.branch.as_str()).concat(
                "` tracks origin/",
            ).concat(self.branch.as_str()).concat(", so `git push` updates pull request ").concat(
                text::decimal_of(pull.number).as_str(),
            );
            let one = output::notice(
                NoticeLevel::Info,
                "PR_BRANCH_TRACKED",
                self.request.target.as_str(),
                message.as_str(),
            );
            say(&mut self.notices, one);
        } else if self.asked || !own {
            let one = untracked_pr_notice(
                self.request.target.as_str(),
                self.branch.as_str(),
                &upstream,
                pull,
                &self.head,
                self.request.detach,
                self.request.no_fetch,
            );
            say(&mut self.notices, one);
        }
        self.step = if self.reuses() && named {
            AddStep::LocalCommit
        } else {
            AddStep::Done
        };
    }

    /// The reference that is asked about at this step.
    pub fn reference(&self) -> (r: String)
        ensures
            r@ == match self.step {
                AddStep::LocalRef | AddStep::LocalCommit => local_ref(self@.branch),
                AddStep::RemoteCommit => origin_ref(self@.branch),
                AddStep::OriginDefault => origin_ref(self@.default),
                AddStep::TrackedRef => match self@.tracked_branch {
                    Some(b) => origin_ref(b),
                    None => Seq::<char>::empty(),
                },
                AddStep::PullRef => match self@.pull {
                    Some(p) => mirror_ref(p.number),
                    None => Seq::<char>::empty(),
                },
                _ => Seq::<char>::empty(),
            },
    {
        proof {
            reveal_strlit("");
            assert(""@ =~= Seq::<char>::empty());
        }
        match self.step {
            AddStep::LocalRef | AddStep::LocalCommit => "refs/heads/".to_owned().concat(
                self.branch.as_str(),
            ),
            AddStep::RemoteCommit => "refs/remotes/origin/".to_owned().concat(
                self.branch.as_str(),
            ),
            AddStep::OriginDefault => "refs/remotes/origin/".to_owned().concat(
                self.default.as_str(),
            ),
            AddStep::TrackedRef => match &self.tracked_branch {
                Some(b) => "refs/remotes/origin/".to_owned().concat(b.as_str()),
                None => text::owned(""),
            },
            AddStep::PullRef => match &self.pull {
                Some(p) => "refs/wt/pr/".to_owned().concat(text::decimal_of(p.number).as_str()),
                None => text::owned(""),
            },
            _ => text::owned(""),
        }
    }

    /// The branches that are fetched: the default branch, and the one that the
    /// worktree starts from, where it can be a branch of origin.
    pub fn wanted(&self) -> (r: Vec<String>)
        ensures
            assoc::set_of(text::texts(r@), wanted_of(self@)),
    {
        let mut list: Vec<String> = Vec::new();
        list.push(self.default.clone());
        match &self.tracked_branch {
            Some(b) => {
                list.push(b.clone());
            },
            None => {
                if let Some(input) = &self.request.from_ref {
                    if self.pull.is_none() {
                        list.push(plain_branch(input.as_str()));
                    }
                }
            },
        }
        proof {
            assert(text::texts(list@) =~= wanted_of(self@));
        }
        assoc::sorted_set(&list)
    }

    /// Whether the worktree starts from a branch of a remote.
    pub fn starts_remote(&self) -> (r: bool)
        ensures
            r == text::starts(self@.start, "refs/remotes/"@),
    {
        text::starts_with(self.start.as_str(), "refs/remotes/")
    }

    /// Takes what came of the step, and goes on to the next.
    #[verifier::rlimit(40)]
    pub fn advance(&mut self, event: AddEvent)
        ensures
            final(self)@ == added(old(self)@, event@),
    {
        match self.step {
            AddStep::Done | AddStep::Failed => {
                return;
            },
            AddStep::Accelerate => {
                self.accelerated(event);
                return;
            },
            _ => {},
        }
        match event {
            AddEvent::Failure(e) => {
                self.take_failure(e);
            },
            AddEvent::Finished => {
                match self.step {
                    AddStep::FetchNamed | AddStep::FetchAll => {
                        self.fetched();
                    },
                    AddStep::FetchPull => {
                        self.step = AddStep::PullRef;
                    },
                    AddStep::Cache => {
                        self.step = AddStep::Add;
                    },
                    AddStep::Add => {
                        self.step = AddStep::Accelerate;
                    },
                    _ => {},
                }
            },
            AddEvent::Exists(yes) => {
                self.take_exists(yes);
            },
            AddEvent::Wanted(pull) => {
                if self.step == AddStep::Request {
                    self.pull = pull;
                    match &self.request.branch {
                        Some(b) => {
                            self.branch = b.clone();
                            self.step = AddStep::Holder;
                        },
                        None => {
                            self.step = AddStep::Branch;
                        },
                    }
                }
            },
            AddEvent::Found(value) => {
                self.take_found(value);
            },
            AddEvent::Said(told) => {
                if self.step == AddStep::Forge {
                    self.take_answer(told, true);
                }
            },
            AddEvent::Start { reference, shadows } => {
                if self.step == AddStep::Resolve {
                    if shadows {
                        let one = output::notice(
                            NoticeLevel::Warn,
                            "FROM_LOCAL_SHADOWS_REMOTE",
                            self.request.target.as_str(),
                            "local branch takes precedence over a different origin branch",
                        );
                        say(&mut self.notices, one);
                    }
                    self.start_from(reference);
                }
            },
        }
    }

    fn accelerated(&mut self, event: AddEvent)
        requires
            old(self).step == AddStep::Accelerate,
        ensures
            final(self)@ == added(old(self)@, event@),
    {
        match event {
            AddEvent::Failure(_) | AddEvent::Finished => {
                let pull = self.pull.take();
                match pull {
                    Some(p) => {
                        if self.request.detach {
                            self.upstream_known(&p, None);
                        } else {
                            self.step = AddStep::Upstream;
                        }
                        self.pull = Some(p);
                    },
                    None => {
                        self.step = AddStep::Done;
                    },
                }
            },
            _ => {},
        }
    }

    fn take_failure(&mut self, e: CoreError)
        requires
            old(self).step != AddStep::Done,
            old(self).step != AddStep::Failed,
            old(self).step != AddStep::Accelerate,
        ensures
            final(self)@ == added(old(self)@, Happened::Failure(e@)),
    {
        match self.step {
            AddStep::FetchNamed => {
                if text::same(e.code.as_str(), "TIMEOUT") {
                    self.fail(e);
                } else {
                    self.narrow = Some(e);
                    self.step = AddStep::FetchAll;
                }
            },
            AddStep::FetchAll => {
                let told = match &self.narrow {
                    Some(narrow) => narrow.copy(),
                    None => e,
                };
                self.fail(told);
            },
            _ => {
                self.fail(e);
            },
        }
    }

    fn take_exists(&mut self, yes: bool)
        requires
            old(self).step != AddStep::Done,
            old(self).step != AddStep::Failed,
            old(self).step != AddStep::Accelerate,
        ensures
            final(self)@ == added(old(self)@, Happened::Exists(yes)),
    {
        match self.step {
            AddStep::Origin => {
                self.origin = yes;
                self.step = AddStep::Request;
            },
            AddStep::LocalRef => {
                self.exists = yes;
                let told = copied(&self.request.told);
                match told {
                    Some(t) => {
                        self.take_answer(t, true);
                    },
                    None => {
                        if self.reuses() {
                            self.take_answer(Told { head: None, origin_branch: None }, false);
                        } else {
                            self.step = AddStep::Forge;
                        }
                    },
                }
            },
            AddStep::TrackedRef => {
                self.tracked_known(yes);
            },
            AddStep::PullRef => {
                if let Some(pull) = &self.pull {
                    match ensure_pr_ref(pull.number, yes) {
                        Ok(start) => {
                            self.start_from(start);
                        },
                        Err(e) => {
                            self.fail(e);
                        },
                    }
                }
            },
            AddStep::OriginDefault => {
                let start = if yes {
                    "refs/remotes/origin/".to_owned().concat(self.default.as_str())
                } else {
                    "refs/heads/".to_owned().concat(self.default.as_str())
                };
                self.start_from(start);
            },
            _ => {},
        }
    }

    fn tracked_known(&mut self, yes: bool)
        requires
            old(self).step == AddStep::TrackedRef,
        ensures
            final(self)@ == added(old(self)@, Happened::Exists(yes)),
    {
        let number: u64 = match &self.pull {
            Some(p) => p.number,
            None => {
                return;
            },
        };
        let branch = match &self.tracked_branch {
            Some(b) => b.clone(),
            None => {
                return;
            },
        };
        if yes {
            let start = "refs/remotes/origin/".to_owned().concat(branch.as_str());
            self.start_from(start);
        } else {
            let message = "pull request ".to_owned().concat(
                text::decimal_of(number).as_str(),
            ).concat(" is branch `").concat(branch.as_str()).concat(
                "`, which origin does not have",
            );
            let e = CoreError::new(
                ExitClass::NotFound,
                "NOT_FOUND",
                message.as_str(),
                "verify the pull request is still open and its branch was not deleted",
            );
            self.fail(e);
        }
    }

    fn take_found(&mut self, value: Option<String>)
        requires
            old(self).step != AddStep::Done,
            old(self).step != AddStep::Failed,
            old(self).step != AddStep::Accelerate,
        ensures
            final(self)@ == added(old(self)@, Happened::Found(text::opt(value))),
    {
        match self.step {
            AddStep::Branch => {
                if let Some(branch) = value {
                    self.branch = branch;
                    self.step = AddStep::Holder;
                }
            },
            AddStep::Holder => {
                match value {
                    Some(p) => {
                        let message = "branch `".to_owned().concat(self.branch.as_str()).concat(
                            "` is checked out at ",
                        ).concat(p.as_str());
                        let e = CoreError::new(
                            ExitClass::Conflict,
                            "BRANCH_IN_USE",
                            message.as_str(),
                            "choose another branch or remove the worktree that holds it",
                        );
                        self.fail(e);
                    },
                    None => {
                        self.free = true;
                        self.step = AddStep::LocalRef;
                    },
                }
            },
            AddStep::DefaultBranch => {
                if let Some(default) = value {
                    self.default = default;
                    self.discovered = true;
                    if self.origin && !self.request.no_fetch {
                        self.step = AddStep::FetchNamed;
                    } else {
                        self.fetched();
                    }
                }
            },
            AddStep::DefaultAgain => {
                if let Some(default) = value {
                    self.default = default;
                    self.record();
                }
            },
            AddStep::Upstream => {
                let pull = self.pull.take();
                if let Some(p) = pull {
                    self.upstream_known(&p, value);
                    self.pull = Some(p);
                }
            },
            AddStep::LocalCommit => {
                self.local = value;
                self.step = AddStep::RemoteCommit;
            },
            AddStep::RemoteCommit => {
                if value.is_some() && !text::same_option(&self.local, &value) {
                    let message = "local branch `".to_owned().concat(
                        self.branch.as_str(),
                    ).concat("` is not at origin/").concat(self.branch.as_str()).concat(
                        ", and the worktree starts from the local branch",
                    );
                    let one = output::notice(
                        NoticeLevel::Warn,
                        "FROM_LOCAL_SHADOWS_REMOTE",
                        self.request.target.as_str(),
                        message.as_str(),
                    );
                    say(&mut self.notices, one);
                }
                self.step = AddStep::Done;
            },
            _ => {},
        }
    }
}

/// A branch without the name of origin before it.
pub open spec fn bare_branch(input: Seq<char>) -> Seq<char> {
    match text::after(input, "origin/"@) {
        Some(branch) => branch,
        None => input,
    }
}

/// A branch without the name of origin before it.
pub fn plain_branch(input: &str) -> (r: String)
    ensures
        r@ == bare_branch(input@),
{
    match text::strip_prefix(input, "origin/") {
        Some(branch) => branch,
        None => input.to_owned(),
    }
}

/// The branches that are fetched.
pub open spec fn wanted_of(a: Progress) -> Seq<Seq<char>> {
    match a.tracked_branch {
        Some(b) => seq![a.default, b],
        None => if a.wish.from_ref is Some && a.pull is None {
            seq![a.default, bare_branch(a.wish.from_ref->0)]
        } else {
            seq![a.default]
        },
    }
}

fn copied(told: &Option<Told>) -> (r: Option<Told>)
    ensures
        r is Some == (told is Some),
        r matches Some(t) ==> t@ == told->0@,
{
    match told {
        Some(t) => {
            let head = match &t.head {
                Some(h) => Some(
                    PullRequestHead {
                        branch: h.branch.clone(),
                        cross_repository: h.cross_repository,
                        owner: h.owner.clone(),
                    },
                ),
                None => None,
            };
            Some(Told { head, origin_branch: t.origin_branch.clone() })
        },
        None => None,
    }
}

/// Refuses a pull request that is not there; else the reference that it is mirrored
/// under.
pub fn ensure_pr_ref(number: u64, exists: bool) -> (r: Result<String, CoreError>)
    ensures
        r is Ok == exists,
        r matches Ok(reference) ==> reference@ == mirror_ref(number as nat),
        r matches Err(e) ==> e@ == no_pull(number as nat),
{
    let n = text::decimal_of(number);
    if exists {
        Ok("refs/wt/pr/".to_owned().concat(n.as_str()))
    } else {
        let message = "pull request ".to_owned().concat(n.as_str()).concat(
            " is not available locally",
        );
        Err(
            CoreError::new(
                ExitClass::NotFound,
                "NOT_FOUND",
                message.as_str(),
                "retry without --no-fetch or verify the pull request number",
            ),
        )
    }
}

/// Adding a worktree after a row of events.
pub open spec fn added_all(a: Progress, events: Seq<Happened>) -> Progress
    decreases events.len(),
{
    if events.len() == 0 {
        a
    } else {
        added(added_all(a, events.drop_last()), events.last())
    }
}

/// Whether a step comes before it is known that nothing else has the branch.
pub open spec fn early(step: AddStep) -> bool {
    step == AddStep::Origin || step == AddStep::Request || step == AddStep::Branch || step
        == AddStep::Holder || step == AddStep::Failed
}

/// A branch that is checked out elsewhere never gets a second worktree: nothing is
/// fetched, recorded or added before git has said that the branch is free.
pub proof fn a_held_branch_is_never_added(wish: Wish, events: Seq<Happened>)
    ensures
        !early(added_all(begun(wish), events).step) ==> added_all(begun(wish), events).free,
        added_all(begun(wish), events).wish == wish,
    decreases events.len(),
{
    if events.len() > 0 {
        a_held_branch_is_never_added(wish, events.drop_last());
    }
}

/// Nothing is fetched where that was ruled out.
pub proof fn nothing_is_fetched_offline(wish: Wish, events: Seq<Happened>)
    requires
        wish.no_fetch,
    ensures
        added_all(begun(wish), events).step != AddStep::FetchNamed,
        added_all(begun(wish), events).step != AddStep::FetchAll,
        added_all(begun(wish), events).step != AddStep::FetchPull,
        added_all(begun(wish), events).wish == wish,
    decreases events.len(),
{
    if events.len() > 0 {
        nothing_is_fetched_offline(wish, events.drop_last());
    }
}

/// Where all branches were fetched in vain, the error is that of the branches that
/// were wanted.
pub proof fn the_narrow_error_is_told(a: Progress, narrow: error::Fault, wide: error::Fault)
    requires
        a.step == AddStep::FetchNamed,
        narrow.code != "TIMEOUT"@,
    ensures
        added(added(a, Happened::Failure(narrow)), Happened::Failure(wide)).error == Some(narrow),
        added(added(a, Happened::Failure(narrow)), Happened::Failure(wide)).step
            == AddStep::Failed,
{
}

/// A push is said to update the pull request only where the forge named the branch
/// as the pull request's and git tracks it.
pub proof fn praise_is_earned(a: Progress, pull: Pull, upstream: Option<Seq<char>>)
    requires
        with_upstream(a, pull, upstream).notices.len() > a.notices.len(),
        with_upstream(a, pull, upstream).notices.last().code == "PR_BRANCH_TRACKED"@,
    ensures
        a.tracked_branch == Some(a.branch),
        upstream == Some("origin/"@ + a.branch),
{
    reveal_strlit("PR_BRANCH_TRACKED");
    reveal_strlit("PR_BRANCH_UNTRACKED");
    assert("PR_BRANCH_TRACKED"@.len() != "PR_BRANCH_UNTRACKED"@.len());
}

// ---------------------------------------------------------------------------
// What adding comes to
// ---------------------------------------------------------------------------

/// The place of a step in the order in which steps come.
pub open spec fn place(step: AddStep) -> int {
    match step {
        AddStep::Origin => 0,
        AddStep::Request => 1,
        AddStep::Branch => 2,
        AddStep::Holder => 3,
        AddStep::LocalRef => 4,
        AddStep::Forge => 5,
        AddStep::DefaultBranch => 6,
        AddStep::FetchNamed => 7,
        AddStep::FetchAll => 8,
        AddStep::TrackedRef => 9,
        AddStep::FetchPull => 10,
        AddStep::PullRef => 11,
        AddStep::Resolve => 12,
        AddStep::OriginDefault => 13,
        AddStep::DefaultAgain => 14,
        AddStep::Cache => 15,
        AddStep::Add => 16,
        AddStep::Accelerate => 17,
        AddStep::Upstream => 18,
        AddStep::LocalCommit => 19,
        AddStep::RemoteCommit => 20,
        AddStep::Done => 21,
        AddStep::Failed => -1,
    }
}

/// Whether adding has come past a step, or past where it would be.
pub open spec fn passed(a: Progress, step: AddStep) -> bool {
    a.step != AddStep::Failed && place(a.step) > place(step)
}

/// Whether a step is called for. The forge is asked for what is neither told nor known
/// here; the default branch is sought first, unless nothing is fetched and it is on
/// record, and then in the end; branches are fetched where there is an origin and that
/// was not ruled out, all of them only where the wanted ones could not be; a pull request
/// is looked for only where its branch is not here; what was named to start from is found
/// out wherever anything was named; and the default branch goes on record where it is
/// another.
#[verifier::opaque]
pub open spec fn called_for(a: Progress, step: AddStep) -> bool {
    let wish = a.wish;
    let known = a.exists && !wish.detach;
    let on_record = wish.no_fetch && wish.cached is Some;
    let fetches = a.origin && !wish.no_fetch;
    match step {
        AddStep::Branch => wish.branch is None,
        AddStep::Forge => wish.told is None && !known,
        AddStep::DefaultBranch => !on_record,
        AddStep::FetchNamed => fetches,
        AddStep::FetchAll => fetches && a.narrow is Some,
        AddStep::TrackedRef => a.pull is Some && !known && a.tracked_branch is Some,
        AddStep::FetchPull => a.pull is Some && !known && a.tracked_branch is None && !wish.no_fetch,
        AddStep::PullRef => a.pull is Some && !known && a.tracked_branch is None,
        AddStep::Resolve => a.pull is None && wish.from_ref is Some,
        AddStep::OriginDefault => a.pull is None && wish.from_ref is None,
        AddStep::DefaultAgain => on_record,
        AddStep::Cache => wish.cached != Some(a.default),
        AddStep::Upstream => a.pull is Some && !wish.detach,
        AddStep::LocalCommit => a.pull is Some && known && a.tracked_branch == Some(a.branch),
        AddStep::RemoteCommit => a.pull is Some && known && a.tracked_branch == Some(a.branch),
        _ => true,
    }
}

/// Adding after something came of its step.
#[verifier::opaque]
pub open spec fn then_added(a: Progress, e: Happened) -> Progress {
    added(a, e)
}

/// How adding goes on.
pub open spec fn adding_next() -> spec_fn(Progress, Happened) -> Progress {
    |a: Progress, e: Happened| then_added(a, e)
}

/// The step that adding is at.
pub open spec fn adding_at() -> spec_fn(Progress) -> AddStep {
    |a: Progress| a.step
}

/// What a step was answered with, where it was taken and left again.
pub open spec fn given(wish: Wish, events: Seq<Happened>, step: AddStep) -> Option<Happened> {
    course::answered(adding_next(), adding_at(), begun(wish), events, step)
}

proof fn lemma_after(wish: Wish, events: Seq<Happened>)
    ensures
        added_all(begun(wish), events) == course::after(adding_next(), begun(wish), events),
    decreases events.len(),
{
    if events.len() > 0 {
        lemma_after(wish, events.drop_last());
        reveal(then_added);
    }
}

/// What holds of adding at every step: what the forge said, and where the worktree starts.
#[verifier::opaque]
pub open spec fn holds_on(a: Progress) -> bool {
    let on_record = a.wish.no_fetch && a.wish.cached is Some;
    let known = a.exists && !a.wish.detach;
    &&& called_for(a, a.step)
    &&& place(a.step) > place(AddStep::DefaultBranch) ==> a.discovered == !on_record
    &&& place(a.step) <= place(AddStep::FetchNamed) ==> a.narrow is None
    &&& a.narrow is Some ==> a.origin && !a.wish.no_fetch
    &&& on_record && place(AddStep::Forge) < place(a.step) <= place(AddStep::DefaultAgain)
        ==> Some(a.default) == a.wish.cached
    &&& a.error is None
    &&& place(a.step) > place(AddStep::Branch) && a.wish.branch is Some ==> a.branch
        == a.wish.branch->0
    &&& place(a.step) > place(AddStep::Forge) && a.wish.told is Some ==> a.tracked_branch
        == a.wish.told->0.origin_branch && a.head == a.wish.told->0.head && a.asked
    &&& place(a.step) > place(AddStep::Forge) && a.wish.told is None && known ==> a.tracked_branch
        is None && a.head is None && !a.asked
    &&& place(a.step) > place(AddStep::OriginDefault) && a.pull is Some ==> a.start == (
    if known {
        "refs/heads/"@ + a.branch
    } else {
        match a.tracked_branch {
            Some(b) => "refs/remotes/origin/"@ + b,
            None => "refs/wt/pr/"@ + text::decimal(a.pull->0.number),
        }
    })
}

/// What an answer to a step made adding go by.
#[verifier::opaque]
pub open spec fn goes_by(a: Progress, step: AddStep, e: Happened) -> bool {
    match step {
        AddStep::Origin => e == Happened::Exists(a.origin),
        AddStep::Request => e == Happened::Wanted(a.pull),
        AddStep::Branch => e == Happened::Found(Some(a.branch)),
        AddStep::LocalRef => e == Happened::Exists(a.exists),
        AddStep::Forge => e == Happened::Said(
            Answer { head: a.head, origin_branch: a.tracked_branch },
        ) && a.asked,
        AddStep::FetchNamed => match a.narrow {
            Some(fault) => e == Happened::Failure(fault),
            None => e is Finished,
        },
        AddStep::Resolve => a.wish.from_ref is Some && (e matches Happened::Start {
            reference,
            shadows,
        } && a.start == reference),
        AddStep::OriginDefault => e matches Happened::Exists(yes) && a.start == (if yes {
            "refs/remotes/origin/"@
        } else {
            "refs/heads/"@
        }) + (if a.wish.no_fetch && a.wish.cached is Some {
            a.wish.cached->0
        } else {
            a.default
        }),
        _ => true,
    }
}

/// What an event may do to adding: it goes on, past what is not called for, or nothing
/// changes; what held holds on, and what was answered before is still gone by.
pub open spec fn goes_on(a: Progress, event: Happened, k: AddStep, e0: Happened) -> bool {
    let b = then_added(a, event);
    &&& b.wish == a.wish
    &&& holds_on(b)
    &&& called_for(b, b.step)
    &&& b.step == a.step ==> b == a
    &&& b.step != a.step ==> {
        &&& place(b.step) > place(a.step)
        &&& place(k) <= place(a.step) ==> called_for(b, k) == called_for(a, k)
        &&& place(a.step) < place(k) < place(b.step) ==> !called_for(b, k)
    }
    &&& a.step == k && b.step != k ==> goes_by(b, k, event)
    &&& place(a.step) > place(k) && goes_by(a, k, e0) ==> goes_by(b, k, e0)
}

#[verifier::spinoff_prover]
#[verifier::rlimit(30)]
proof fn lemma_early_exists(a: Progress, event: Happened, k: AddStep, e0: Happened)
    requires
        event is Exists,
        a.step != AddStep::Failed,
        k != AddStep::Failed,
        holds_on(a),
        place(a.step) < place(AddStep::Forge),
        then_added(a, event).step != AddStep::Failed,
    ensures
        goes_on(a, event, k, e0),
{
    reveal(then_added);
    reveal(called_for);
    reveal(holds_on);
    reveal(goes_by);
}

#[verifier::spinoff_prover]
#[verifier::rlimit(30)]
proof fn lemma_late_exists(a: Progress, event: Happened, k: AddStep, e0: Happened)
    requires
        event is Exists,
        a.step != AddStep::Failed,
        k != AddStep::Failed,
        holds_on(a),
        place(a.step) >= place(AddStep::Forge),
        then_added(a, event).step != AddStep::Failed,
    ensures
        goes_on(a, event, k, e0),
{
    reveal(then_added);
    reveal(called_for);
    reveal(holds_on);
    reveal(goes_by);
}

#[verifier::spinoff_prover]
proof fn lemma_wanted(a: Progress, event: Happened, k: AddStep, e0: Happened)
    requires
        event is Wanted,
        a.step != AddStep::Failed,
        k != AddStep::Failed,
        holds_on(a),
        then_added(a, event).step != AddStep::Failed,
    ensures
        goes_on(a, event, k, e0),
{
    reveal(then_added);
    reveal(called_for);
    reveal(holds_on);
    reveal(goes_by);
}

#[verifier::spinoff_prover]
proof fn lemma_found(a: Progress, event: Happened, k: AddStep, e0: Happened)
    requires
        event is Found,
        a.step != AddStep::Failed,
        k != AddStep::Failed,
        holds_on(a),
        then_added(a, event).step != AddStep::Failed,
    ensures
        goes_on(a, event, k, e0),
{
    reveal(then_added);
    reveal(called_for);
    reveal(holds_on);
    reveal(goes_by);
}

#[verifier::spinoff_prover]
proof fn lemma_said(a: Progress, event: Happened, k: AddStep, e0: Happened)
    requires
        event is Said,
        a.step != AddStep::Failed,
        k != AddStep::Failed,
        holds_on(a),
        then_added(a, event).step != AddStep::Failed,
    ensures
        goes_on(a, event, k, e0),
{
    reveal(then_added);
    reveal(called_for);
    reveal(holds_on);
    reveal(goes_by);
}

#[verifier::spinoff_prover]
#[verifier::rlimit(30)]
proof fn lemma_early_finished(a: Progress, event: Happened, k: AddStep, e0: Happened)
    requires
        event is Finished,
        a.step != AddStep::Failed,
        k != AddStep::Failed,
        holds_on(a),
        place(a.step) < place(AddStep::Cache),
        then_added(a, event).step != AddStep::Failed,
    ensures
        goes_on(a, event, k, e0),
{
    reveal(then_added);
    reveal(called_for);
    reveal(holds_on);
    reveal(goes_by);
}

#[verifier::spinoff_prover]
#[verifier::rlimit(30)]
proof fn lemma_late_finished(a: Progress, event: Happened, k: AddStep, e0: Happened)
    requires
        event is Finished,
        a.step != AddStep::Failed,
        k != AddStep::Failed,
        holds_on(a),
        place(a.step) >= place(AddStep::Cache),
        then_added(a, event).step != AddStep::Failed,
    ensures
        goes_on(a, event, k, e0),
{
    reveal(then_added);
    reveal(called_for);
    reveal(holds_on);
    reveal(goes_by);
}

#[verifier::spinoff_prover]
proof fn lemma_failure(a: Progress, event: Happened, k: AddStep, e0: Happened)
    requires
        event is Failure,
        a.step != AddStep::Failed,
        k != AddStep::Failed,
        holds_on(a),
        then_added(a, event).step != AddStep::Failed,
    ensures
        goes_on(a, event, k, e0),
{
    reveal(then_added);
    reveal(called_for);
    reveal(holds_on);
    reveal(goes_by);
}

#[verifier::spinoff_prover]
proof fn lemma_start(a: Progress, event: Happened, k: AddStep, e0: Happened)
    requires
        event is Start,
        a.step != AddStep::Failed,
        k != AddStep::Failed,
        holds_on(a),
        then_added(a, event).step != AddStep::Failed,
    ensures
        goes_on(a, event, k, e0),
{
    reveal(then_added);
    reveal(called_for);
    reveal(holds_on);
    reveal(goes_by);
}

proof fn lemma_goes_on(a: Progress, event: Happened, k: AddStep, e0: Happened)
    requires
        a.step != AddStep::Failed,
        k != AddStep::Failed,
        holds_on(a),
        then_added(a, event).step != AddStep::Failed,
    ensures
        goes_on(a, event, k, e0),
{
    match event {
        Happened::Exists(_) => {
            if place(a.step) < place(AddStep::Forge) {
                lemma_early_exists(a, event, k, e0);
            } else {
                lemma_late_exists(a, event, k, e0);
            }
        },
        Happened::Wanted(_) => lemma_wanted(a, event, k, e0),
        Happened::Found(_) => lemma_found(a, event, k, e0),
        Happened::Said(_) => lemma_said(a, event, k, e0),
        Happened::Finished => {
            if place(a.step) < place(AddStep::Cache) {
                lemma_early_finished(a, event, k, e0);
            } else {
                lemma_late_finished(a, event, k, e0);
            }
        },
        Happened::Failure(_) => lemma_failure(a, event, k, e0),
        Happened::Start { .. } => lemma_start(a, event, k, e0),
    }
}

/// Each step of adding a worktree is taken where it is called for, and nowhere else, and
/// adding goes by what it was answered, whatever the events. In particular a worktree
/// starts where it was asked to: a pull request at its own branch where that is here, and
/// else at origin's or at its mirror; anything else at what the name that was given was
/// found to be, and where none was given at origin's default branch, or the local one
/// where origin has none. How anything was fetched does not change that.
pub proof fn a_worktree_starts_where_it_was_asked_to(
    wish: Wish,
    events: Seq<Happened>,
    step: AddStep,
)
    requires
        step != AddStep::Failed,
    ensures
        ({
            let a = added_all(begun(wish), events);
            a.step != AddStep::Failed ==> {
                &&& a.wish == wish
                &&& holds_on(a)
                &&& passed(a, step) ==> (given(wish, events, step) is Some <==> called_for(a, step))
                &&& !passed(a, step) ==> given(wish, events, step) is None
                &&& given(wish, events, step) matches Some(e) ==> goes_by(a, step, e)
            }
        }),
{
    lemma_after(wish, events);
    let next = adding_next();
    let at = adding_at();
    let s = begun(wish);
    let places = |k: AddStep| place(k);
    let dead = |a: Progress| a.step == AddStep::Failed;
    let inv = |a: Progress| a.wish == wish && holds_on(a);
    let called = |a: Progress, k: AddStep| called_for(a, k);
    let past = |a: Progress| place(a.step) > place(step);
    let fact = |a: Progress, e: Happened| goes_by(a, step, e);
    assert forall|a: Progress, e: Happened| dead(a) implies dead(#[trigger] next(a, e)) by {
        reveal(then_added);
    }
    assert(inv(s) && called(s, at(s))) by {
        reveal(holds_on);
        reveal(called_for);
    }
    assert forall|a: Progress, e: Happened|
        inv(a) && !dead(a) && !dead(#[trigger] next(a, e)) implies inv(next(a, e)) by {
        lemma_goes_on(a, e, step, e);
    }
    assert forall|a: Progress, e: Happened|
        inv(a) && !dead(a) && called(a, at(a)) && !dead(#[trigger] next(a, e)) implies {
        let b = next(a, e);
        &&& inv(b)
        &&& at(b) == at(a) ==> b == a
        &&& at(b) != at(a) ==> {
            &&& places(at(b)) > places(at(a))
            &&& called(b, at(b))
            &&& places(step) <= places(at(a)) ==> called(b, step) == called(a, step)
            &&& places(at(a)) < places(step) < places(at(b)) ==> !called(b, step)
        }
    } by {
        lemma_goes_on(a, e, step, e);
    }
    course::lemma_taken(next, at, places, dead, inv, called, s, events, step);
    assert forall|a: Progress, e: Happened|
        inv(a) && !dead(a) && !dead(#[trigger] next(a, e)) && at(a) == step && at(next(a, e))
            != step implies past(next(a, e)) && fact(next(a, e), e) by {
        lemma_goes_on(a, e, step, e);
    }
    assert forall|a: Progress, e: Happened, e0: Happened|
        #![trigger next(a, e), fact(a, e0)]
        inv(a) && !dead(a) && !dead(next(a, e)) && past(a) && fact(a, e0) implies past(next(a, e))
        && fact(next(a, e), e0) && at(a) != step by {
        lemma_goes_on(a, e, step, e0);
    }
    course::lemma_told(next, at, dead, inv, past, fact, s, events, step);
}

/// Where something was named to start from and no pull request is wanted, the default
/// branch is never asked about, and what is added starts from what the name was found to
/// be, however anything was fetched.
pub proof fn a_named_start_is_never_ignored(wish: Wish, events: Seq<Happened>)
    requires
        wish.from_ref is Some,
        added_all(begun(wish), events).step != AddStep::Failed,
        added_all(begun(wish), events).pull is None,
    ensures
        added_all(begun(wish), events).step != AddStep::OriginDefault,
        place(added_all(begun(wish), events).step) >= place(AddStep::Add) ==> (given(
            wish,
            events,
            AddStep::Resolve,
        ) matches Some(Happened::Start { reference, shadows }) && reference == added_all(
            begun(wish),
            events,
        ).start),
{
    a_worktree_starts_where_it_was_asked_to(wish, events, AddStep::Resolve);
    reveal(called_for);
    reveal(holds_on);
    reveal(goes_by);
}

/// Where nothing was named to start from and no pull request is wanted, origin's default
/// branch is asked about, and what is added starts from it, or from the local one where
/// origin has none, however anything was fetched.
pub proof fn a_start_by_default_is_the_default_branch(wish: Wish, events: Seq<Happened>)
    requires
        wish.from_ref is None,
        added_all(begun(wish), events).step != AddStep::Failed,
        added_all(begun(wish), events).pull is None,
    ensures
        added_all(begun(wish), events).step != AddStep::Resolve,
        place(added_all(begun(wish), events).step) >= place(AddStep::Add) ==> {
            let a = added_all(begun(wish), events);
            let branch = if wish.no_fetch && wish.cached is Some {
                wish.cached->0
            } else {
                a.default
            };
            given(wish, events, AddStep::OriginDefault) matches Some(Happened::Exists(yes))
                && a.start == (if yes {
                "refs/remotes/origin/"@
            } else {
                "refs/heads/"@
            }) + branch
        },
{
    a_worktree_starts_where_it_was_asked_to(wish, events, AddStep::OriginDefault);
    reveal(called_for);
    reveal(holds_on);
    reveal(goes_by);
}

/// A worktree of a pull request starts from its own branch where that is here, else from
/// origin's, and else from where the pull request is mirrored, whatever was named to start
/// from.
pub proof fn a_pull_request_starts_from_its_branch(wish: Wish, events: Seq<Happened>)
    requires
        added_all(begun(wish), events).step != AddStep::Failed,
        added_all(begun(wish), events).pull is Some,
    ensures
        added_all(begun(wish), events).step != AddStep::Resolve,
        added_all(begun(wish), events).step != AddStep::OriginDefault,
        place(added_all(begun(wish), events).step) >= place(AddStep::Add) ==> {
            let a = added_all(begun(wish), events);
            a.start == (if a.exists && !wish.detach {
                "refs/heads/"@ + a.branch
            } else {
                match a.tracked_branch {
                    Some(b) => "refs/remotes/origin/"@ + b,
                    None => "refs/wt/pr/"@ + text::decimal(a.pull->0.number),
                }
            })
        },
{
    a_worktree_starts_where_it_was_asked_to(wish, events, AddStep::Add);
    reveal(called_for);
    reveal(holds_on);
}

/// A step that fails ends it with its own error: but for a fetch of the wanted branches,
/// after which all are fetched unless the time was over, and for what only speeds things
/// up.
pub proof fn a_failing_step_ends_it(a: Progress, e: error::Fault)
    requires
        a.step != AddStep::Done,
        a.step != AddStep::Failed,
        a.step != AddStep::FetchAll,
        a.step != AddStep::Accelerate,
        a.step != AddStep::FetchNamed || e.code == "TIMEOUT"@,
    ensures
        added(a, Happened::Failure(e)).step == AddStep::Failed,
        added(a, Happened::Failure(e)).error == Some(e),
{
}

/// Adding fails for no other reason than a step that failed, a branch that is held, or a
/// branch or pull request that is not there.
pub proof fn nothing_else_fails(a: Progress, event: Happened)
    requires
        a.step != AddStep::Failed,
        added(a, event).step == AddStep::Failed,
    ensures
        event is Failure || (a.step == AddStep::Holder && (event matches Happened::Found(p) && p
            is Some)) || ((a.step == AddStep::TrackedRef || a.step == AddStep::PullRef) && event
            == Happened::Exists(false)),
{
}

/// What is fetched: the default branch, and what the worktree starts from where that can
/// be a branch of origin, and nothing else.
pub proof fn what_is_wanted_is_what_it_needs(a: Progress, branch: Seq<char>)
    ensures
        wanted_of(a).contains(branch) <==> (branch == a.default || a.tracked_branch == Some(branch)
            || (a.tracked_branch is None && a.pull is None && (a.wish.from_ref matches Some(input)
            && (input == "origin/"@ + branch || (input == branch && !text::starts(
            branch,
            "origin/"@,
        )))))),
{
    let l = wanted_of(a);
    assert(l.contains(a.default)) by {
        assert(l[0] == a.default);
    }
    if a.wish.from_ref is Some {
        let input = a.wish.from_ref->0;
        reveal_strlit("origin/");
        let o = "origin/"@;
        if text::starts(input, o) {
            assert(input =~= o + input.skip(o.len() as int));
        }
        assert((o + branch).skip(o.len() as int) =~= branch);
        assert((o + branch).take(o.len() as int) =~= o);
    }
    if l.len() > 1 {
        assert(l.contains(l[1]));
    }
}

/// What is said of the branch of a pull request: that a push updates it, where it tracks the
/// branch of its own name and the forge says that this is the pull request's; a warning,
/// where it tracks anything else or the forge was asked; and else nothing. Its commits are
/// compared exactly where the branch was there before and is the pull request's.
#[verifier::spinoff_prover]
pub proof fn what_is_said_of_a_pull_request(a: Progress, pull: Pull, upstream: Option<Seq<char>>)
    ensures
        ({
            let b = with_upstream(a, pull, upstream);
            let own = upstream == Some("origin/"@ + a.branch);
            let its = a.tracked_branch == Some(a.branch);
            let said = (own && its) || a.asked || !own;
            &&& b.notices.len() == a.notices.len() + (if said {
                1int
            } else {
                0
            })
            &&& said ==> b.notices.last().code == (if own && its {
                "PR_BRANCH_TRACKED"@
            } else {
                "PR_BRANCH_UNTRACKED"@
            })
            &&& b.notices.take(a.notices.len() as int) =~= a.notices
            &&& b.step == (if a.exists && !a.wish.detach && its {
                AddStep::LocalCommit
            } else {
                AddStep::Done
            })
        }),
{
}

/// Someone is warned that a worktree starts elsewhere than they may think exactly where the
/// name that was given is that of a local branch which differs from origin's, or where the
/// branch of a pull request is not at origin's.
#[verifier::spinoff_prover]
pub proof fn when_a_start_is_warned_about(
    a: Progress,
    reference: Seq<char>,
    shadows: bool,
    commit: Option<Seq<char>>,
)
    ensures
        a.step == AddStep::Resolve ==> added(a, Happened::Start { reference, shadows }).notices.len()
            == a.notices.len() + (if shadows {
            1int
        } else {
            0
        }),
        a.step == AddStep::RemoteCommit ==> added(a, Happened::Found(commit)).notices.len()
            == a.notices.len() + (if commit is Some && a.local != commit {
            1int
        } else {
            0
        }),
{
}

} // verus!
