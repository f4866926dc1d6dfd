//! The record of builds: where it is, whether it covers what is checked out, and how
//! this program is started beside itself.

use vstd::prelude::*;
use vstd::string::*;

use crate::assoc;
use crate::assoc::Assoc;
use crate::course;
use crate::error;
use crate::error::CoreError;
use crate::path;
use crate::proc;
use crate::proc::CommandRequest;
use crate::text;

verus! {

broadcast use vstd::string::group_string_axioms;

/// Where the status of a tree's build is kept, and its log.
#[derive(Debug)]
pub struct Slot {
    pub status: String,
    pub log: String,
}

/// Where the status of a tree's build is kept.
pub open spec fn status_path(root: Seq<char>) -> Seq<char> {
    path::joined(root, ".wt/build.status"@)
}

/// Where the log of a tree's build is.
pub open spec fn build_log(root: Seq<char>) -> Seq<char> {
    path::joined(root, ".wt/logs/wt-setup.log"@)
}

impl Slot {
    /// The slot of a tree.
    pub fn for_tree(root: &str) -> (r: Self)
        ensures
            r.status@ == status_path(root@),
            r.log@ == build_log(root@),
    {
        Slot {
            status: path::join(root, ".wt/build.status"),
            log: path::join(root, ".wt/logs/wt-setup.log"),
        }
    }
}

/// The slot that a build writes: the tree's own, where it is the one that was handed in,
/// or where none was and the tree has a build on record.
pub fn slot_for(root: &str, given: &Option<String>, recorded: bool) -> (r: Option<Slot>)
    ensures
        r is Some == (match text::opt(*given) {
            Some(p) => path::same_path(p, status_path(root@)),
            None => recorded,
        }),
        r matches Some(s) ==> s.status@ == status_path(root@) && s.log@ == build_log(root@),
{
    let slot = Slot::for_tree(root);
    let own = match given {
        Some(p) => path::same(p.as_str(), slot.status.as_str()),
        None => recorded,
    };
    if own {
        Some(slot)
    } else {
        None
    }
}

/// What is on record of a build: when it began, its log, its process, and the commit
/// that it was made of.
#[derive(Debug)]
pub struct BuildState {
    pub started: String,
    pub log: String,
    pub pid: u32,
    pub head: Option<String>,
}

/// Puts this process on record as the owner of a build. A record that is there keeps its
/// log.
pub fn own_build(
    build: Option<BuildState>,
    slot_log: &str,
    pid: u32,
    now: String,
    head: Option<String>,
) -> (r: BuildState)
    ensures
        r.started == now && r.pid == pid && r.head == head,
        r.log@ == match build {
            Some(b) => b.log@,
            None => slot_log@,
        },
{
    let log = match build {
        Some(b) => b.log,
        None => slot_log.to_owned(),
    };
    BuildState { started: now, log, pid, head }
}

/// Whether a build covers what is checked out: one that went well, of that commit.
pub open spec fn covers(
    build: Option<BuildState>,
    head: Seq<char>,
    status: Option<Seq<char>>,
) -> bool {
    build matches Some(b) && text::opt(b.head) == Some(head) && (status matches Some(s)
        && text::trim(s) == "ok"@)
}

/// Whether a build covers what is checked out.
pub fn is_fresh(build: &Option<BuildState>, head: &str, status: &Option<String>) -> (r: bool)
    ensures
        r == covers(*build, head@, text::opt(*status)),
{
    let same = match build {
        Some(b) => match &b.head {
            Some(h) => text::same(h.as_str(), head),
            None => false,
        },
        None => false,
    };
    if !same {
        return false;
    }
    match status {
        Some(s) => text::same(text::trimmed(s.as_str()).as_str(), "ok"),
        None => false,
    }
}

/// A build of another commit is never taken for one of what is checked out.
pub proof fn a_build_of_another_commit_is_stale(
    b: BuildState,
    head: Seq<char>,
    status: Option<Seq<char>>,
)
    requires
        text::opt(b.head) != Some(head),
    ensures
        !covers(Some(b), head, status),
{
}

fn put_all(env: &mut Assoc<String>, more: &Vec<(String, String)>)
    requires
        old(env).wf(),
    ensures
        final(env).wf(),
        assoc::values(final(env)@) == with_all(assoc::values(old(env)@), text::pairs(more@)),
{
    let ghost start = assoc::values(env@);
    let ghost all = text::pairs(more@);
    let mut i: usize = 0;
    while i < more.len()
        invariant
            i <= more.len(),
            env.wf(),
            all == text::pairs(more@),
            assoc::values(env@) == with_all(start, all.take(i as int)),
        decreases more.len() - i,
    {
        let ghost before = assoc::values(env@);
        proof {
            assert(all.take(i + 1).drop_last() =~= all.take(i as int));
            assert(all.take(i + 1).last() == (more@[i as int].0@, more@[i as int].1@));
        }
        env.put(more[i].0.as_str(), more[i].1.clone());
        proof {
            assert(assoc::values(env@) =~= before.insert(more@[i as int].0@, more@[i as int].1@));
        }
        i = i + 1;
    }
    proof {
        assert(all.take(more@.len() as int) =~= all);
    }
}

/// Variables with others, the last of which stand.
pub open spec fn with_all(
    env: Map<Seq<char>, Seq<char>>,
    more: Seq<(Seq<char>, Seq<char>)>,
) -> Map<Seq<char>, Seq<char>>
    decreases more.len(),
{
    if more.len() == 0 {
        env
    } else {
        with_all(env, more.drop_last()).insert(more.last().0, more.last().1)
    }
}

/// The request that starts this program beside itself, in a directory and with the home
/// directory in its environment.
pub fn spawn_wt(
    binary: &str,
    cwd: &str,
    home: &str,
    args: &Vec<String>,
    env: &Vec<(String, String)>,
) -> (r: CommandRequest)
    ensures
        r.program@ == binary@,
        text::texts(r.args@) == text::texts(args@),
        text::opt(r.cwd) == Some(cwd@),
        r.env.wf(),
        assoc::values(r.env@) == with_all(
            Map::<Seq<char>, Seq<char>>::empty().insert("WT_HOME"@, home@),
            text::pairs(env@),
        ),
{
    let mut request = CommandRequest::new(binary);
    request.args = proc::copy_texts(args);
    request.cwd = Some(cwd.to_owned());
    let mut own: Assoc<String> = Assoc::new();
    own.put("WT_HOME", home.to_owned());
    proof {
        assert(assoc::values(own@) =~= Map::<Seq<char>, Seq<char>>::empty().insert(
            "WT_HOME"@,
            home@,
        ));
    }
    put_all(&mut own, env);
    request.env = own;
    request
}

// ---------------------------------------------------------------------------
// The order of a build
// ---------------------------------------------------------------------------

/// What a build does next.
#[derive(Clone, Copy, Debug, PartialEq, Eq, Structural)]
pub enum BuildStep {
    /// Write that it runs.
    Running,
    /// Put this process on record as its owner.
    Owner,
    /// Run the task.
    Run,
    /// Write how it ended.
    Finish,
    /// Sweep what it left behind.
    Sweep,
    Done,
    Failed,
}

/// What came of a step.
#[derive(Debug)]
pub enum BuildEvent {
    Succeeded,
    Failure(CoreError),
}

/// What is known of an event.
pub enum BuildNews {
    Succeeded,
    Failure(error::Fault),
}

impl View for BuildEvent {
    type V = BuildNews;

    open spec fn view(&self) -> BuildNews {
        match self {
            BuildEvent::Succeeded => BuildNews::Succeeded,
            BuildEvent::Failure(e) => BuildNews::Failure(e@),
        }
    }
}

/// A build that is under way: whether it has a slot, and whether it only shows what it
/// would do.
#[derive(Debug)]
pub struct Building {
    pub has_slot: bool,
    pub dry_run: bool,
    pub step: BuildStep,
    /// The slot says that it runs since it began.
    pub announced: bool,
    /// Whether the task went well, once it ran.
    pub ran: Option<bool>,
    /// What it left behind was swept.
    pub swept: bool,
    pub error: Option<CoreError>,
}

/// What is known of a build that is under way.
#[verifier::ext_equal]
pub struct Build {
    pub has_slot: bool,
    pub dry_run: bool,
    pub step: BuildStep,
    pub announced: bool,
    pub ran: Option<bool>,
    pub swept: bool,
    pub error: Option<error::Fault>,
}

impl View for Building {
    type V = Build;

    open spec fn view(&self) -> Build {
        Build {
            has_slot: self.has_slot,
            dry_run: self.dry_run,
            step: self.step,
            announced: self.announced,
            ran: self.ran,
            swept: self.swept,
            error: match self.error {
                Some(e) => Some(e@),
                None => None,
            },
        }
    }
}

/// How a build begins.
pub open spec fn building(has_slot: bool, dry_run: bool) -> Build {
    Build {
        has_slot,
        dry_run,
        step: if has_slot {
            BuildStep::Running
        } else {
            BuildStep::Run
        },
        announced: false,
        ran: None,
        swept: false,
        error: None,
    }
}

/// What the slot says of how a build ended.
pub open spec fn end_said(went_well: bool) -> Seq<char> {
    if went_well {
        "ok\n"@
    } else {
        "failed\n"@
    }
}

/// What the slot says of how a build ended.
pub fn end_text(went_well: bool) -> (r: &'static str)
    ensures
        r@ == end_said(went_well),
{
    if went_well {
        "ok\n"
    } else {
        "failed\n"
    }
}

/// A build that is over: it failed where its task did.
pub open spec fn over(b: Build) -> Build {
    Build {
        step: if b.error is Some {
            BuildStep::Failed
        } else {
            BuildStep::Done
        },
        ..b
    }
}

/// A build whose end is written, where it is: what it left behind is swept, unless it
/// only showed what it would do.
pub open spec fn ended(b: Build) -> Build {
    if b.dry_run {
        over(b)
    } else {
        Build { step: BuildStep::Sweep, ..b }
    }
}

/// A build after something came of its step. It does not begin where its slot cannot be
/// written; whether its owner is on record, and whether its end can be written, does not
/// change how it goes on.
pub open spec fn built(b: Build, news: BuildNews) -> Build {
    match (b.step, news) {
        (BuildStep::Done, _) | (BuildStep::Failed, _) => b,
        (BuildStep::Running, BuildNews::Failure(e)) => Build {
            step: BuildStep::Failed,
            error: Some(e),
            ..b
        },
        (BuildStep::Running, BuildNews::Succeeded) => Build {
            announced: true,
            step: BuildStep::Owner,
            ..b
        },
        (BuildStep::Owner, _) => Build { step: BuildStep::Run, ..b },
        (BuildStep::Run, _) => {
            let ran = Build {
                ran: Some(news is Succeeded),
                error: match news {
                    BuildNews::Failure(e) => Some(e),
                    BuildNews::Succeeded => None,
                },
                ..b
            };
            if b.has_slot {
                Build { step: BuildStep::Finish, ..ran }
            } else {
                ended(ran)
            }
        },
        (BuildStep::Finish, _) => ended(b),
        (BuildStep::Sweep, _) => over(Build { swept: true, ..b }),
    }
}

impl Building {
    /// Begins a build.
    pub fn new(has_slot: bool, dry_run: bool) -> (r: Self)
        ensures
            r@ == building(has_slot, dry_run),
    {
        Building {
            has_slot,
            dry_run,
            step: if has_slot {
                BuildStep::Running
            } else {
                BuildStep::Run
            },
            announced: false,
            ran: None,
            swept: false,
            error: None,
        }
    }

    fn conclude(&mut self)
        ensures
            final(self)@ == over(old(self)@),
    {
        self.step = if self.error.is_some() {
            BuildStep::Failed
        } else {
            BuildStep::Done
        };
    }

    fn go_on(&mut self)
        ensures
            final(self)@ == ended(old(self)@),
    {
        if self.dry_run {
            self.conclude();
        } else {
            self.step = BuildStep::Sweep;
        }
    }

    /// Takes what came of the step, and goes on to the next.
    pub fn advance(&mut self, event: BuildEvent)
        ensures
            final(self)@ == built(old(self)@, event@),
    {
        match self.step {
            BuildStep::Done | BuildStep::Failed => {},
            BuildStep::Running => {
                match event {
                    BuildEvent::Succeeded => {
                        self.announced = true;
                        self.step = BuildStep::Owner;
                    },
                    BuildEvent::Failure(e) => {
                        self.step = BuildStep::Failed;
                        self.error = Some(e);
                    },
                }
            },
            BuildStep::Owner => {
                self.step = BuildStep::Run;
            },
            BuildStep::Run => {
                match event {
                    BuildEvent::Succeeded => {
                        self.ran = Some(true);
                        self.error = None;
                    },
                    BuildEvent::Failure(e) => {
                        self.ran = Some(false);
                        self.error = Some(e);
                    },
                }
                if self.has_slot {
                    self.step = BuildStep::Finish;
                } else {
                    self.go_on();
                }
            },
            BuildStep::Finish => {
                self.go_on();
            },
            BuildStep::Sweep => {
                self.swept = true;
                self.conclude();
            },
        }
    }
}

/// A build after a row of events.
pub open spec fn built_all(b: Build, news: Seq<BuildNews>) -> Build
    decreases news.len(),
{
    if news.len() == 0 {
        b
    } else {
        built(built_all(b, news.drop_last()), news.last())
    }
}

/// What holds of a build at every step.
pub open spec fn build_sound(b: Build) -> bool {
    &&& !(b.step is Running || b.step is Failed) && b.has_slot ==> b.announced
    &&& !(b.step is Done || b.step is Failed) ==> !b.swept
    &&& (b.step is Running || b.step is Owner) ==> b.has_slot
    &&& b.step is Finish ==> b.has_slot && b.ran is Some
    &&& b.step is Sweep ==> b.ran is Some && !b.dry_run
    &&& b.step is Done ==> b.ran is Some && b.ran->0
    &&& (b.step is Done || b.step is Failed) && b.ran is Some ==> b.swept == !b.dry_run
    &&& b.ran is Some ==> (!b.ran->0 <==> b.error is Some)
    &&& b.step is Failed ==> b.error is Some
    &&& b.ran is None ==> !b.swept && (b.error is Some ==> b.step is Failed && b.has_slot)
    &&& (b.step is Running || b.step is Owner || b.step is Run) ==> b.ran is None && b.error is None
}

/// A build with a slot does not run before the slot says so, and it succeeds exactly
/// where its task did. What it left behind is swept whether it went well or not, unless
/// it only showed what it would do.
pub proof fn every_build_is_swept(has_slot: bool, dry_run: bool, news: Seq<BuildNews>)
    ensures
        build_sound(built_all(building(has_slot, dry_run), news)),
        built_all(building(has_slot, dry_run), news).has_slot == has_slot,
        built_all(building(has_slot, dry_run), news).dry_run == dry_run,
    decreases news.len(),
{
    if news.len() > 0 {
        every_build_is_swept(has_slot, dry_run, news.drop_last());
    }
}

/// The place of a step in the order in which steps come.
pub open spec fn build_place(step: BuildStep) -> int {
    match step {
        BuildStep::Running => 0,
        BuildStep::Owner => 1,
        BuildStep::Run => 2,
        BuildStep::Finish => 3,
        BuildStep::Sweep => 4,
        BuildStep::Done => 5,
        BuildStep::Failed => 6,
    }
}

/// Whether a step is called for.
pub open spec fn build_calls_for(a: Build, step: BuildStep) -> bool {
    match step {
        BuildStep::Running | BuildStep::Owner | BuildStep::Finish => a.has_slot,
        BuildStep::Sweep => !a.dry_run,
        BuildStep::Done => a.ran is Some && a.ran->0,
        BuildStep::Failed => a.ran is Some && !a.ran->0,
        _ => true,
    }
}

/// What holds at every step.
pub open spec fn build_holds(a: Build, has_slot: bool, dry_run: bool) -> bool {
    &&& build_calls_for(a, a.step)
    &&& a.has_slot == has_slot && a.dry_run == dry_run
    &&& a.announced == (has_slot && build_place(a.step) > build_place(BuildStep::Running))
    &&& (a.ran is Some <==> build_place(a.step) > build_place(BuildStep::Run))
    &&& (a.error is Some <==> a.ran is Some && !a.ran->0)
    &&& a.swept == (!dry_run && build_place(a.step) > build_place(BuildStep::Sweep))
}

/// What an answer to a step is gone by.
pub open spec fn build_goes_by(a: Build, step: BuildStep, e: BuildNews) -> bool {
    match step {
        BuildStep::Running => e is Succeeded,
        BuildStep::Run => a.ran is Some && a.ran->0 == (e is Succeeded) && (e matches BuildNews::Failure(f) ==> a.error == Some(f)),
        _ => true,
    }
}

/// How it goes on.
pub open spec fn build_next() -> spec_fn(Build, BuildNews) -> Build {
    |a: Build, e: BuildNews| built(a, e)
}

/// The step that it is at.
pub open spec fn build_at() -> spec_fn(Build) -> BuildStep {
    |a: Build| a.step
}

/// What a step was answered with, where it was taken and left again.
pub open spec fn build_given(has_slot: bool, dry_run: bool, events: Seq<BuildNews>, step: BuildStep) -> Option<BuildNews> {
    course::answered(build_next(), build_at(), building(has_slot, dry_run), events, step)
}

proof fn lemma_build_after(has_slot: bool, dry_run: bool, events: Seq<BuildNews>)
    ensures
        built_all(building(has_slot, dry_run), events) == course::after(build_next(), building(has_slot, dry_run), events),
    decreases events.len(),
{
    if events.len() > 0 {
        lemma_build_after(has_slot, dry_run, events.drop_last());
    }
}

#[verifier::spinoff_prover]
proof fn lemma_build_step(a: Build, has_slot: bool, dry_run: bool, e: BuildNews, k: BuildStep)
    requires
        !((a.step == BuildStep::Failed && a.ran is None)),
        build_holds(a, has_slot, dry_run),
        !((built(a, e).step == BuildStep::Failed && built(a, e).ran is None)),
    ensures
        ({
            let b = built(a, e);
            &&& build_holds(b, has_slot, dry_run)
            &&& b.step == a.step ==> b == a
            &&& b.step != a.step ==> {
                &&& build_place(b.step) > build_place(a.step)
                &&& build_place(k) <= build_place(a.step) ==> build_calls_for(b, k) == build_calls_for(a, k)
                &&& build_place(a.step) < build_place(k) < build_place(b.step) ==> !build_calls_for(b, k)
            }
        }),
{
}

#[verifier::spinoff_prover]
proof fn lemma_build_told(a: Build, has_slot: bool, dry_run: bool, e: BuildNews, k: BuildStep, e0: BuildNews)
    requires
        !((a.step == BuildStep::Failed && a.ran is None)),
        build_holds(a, has_slot, dry_run),
        !((built(a, e).step == BuildStep::Failed && built(a, e).ran is None)),
    ensures
        a.step == k && built(a, e).step != k ==> build_goes_by(built(a, e), k, e),
        build_place(a.step) > build_place(k) && build_goes_by(a, k, e0) ==> build_goes_by(built(a, e), k, e0),
{
}

/// Each step of a build is taken where it is called for, and nowhere else, whatever the
/// events: one with a slot says that it runs, who runs it and how it ended, one that does
/// not only show what it would do is swept, and it is done exactly where its task went
/// well, and else fails with the error of the task.
pub proof fn a_build_does_all_that_is_called_for(has_slot: bool, dry_run: bool, events: Seq<BuildNews>, step: BuildStep)
    requires
        build_place(building(has_slot, dry_run).step) <= build_place(step),
    ensures
        ({
            let a = built_all(building(has_slot, dry_run), events);
            !((a.step == BuildStep::Failed && a.ran is None)) ==> {
                &&& (match a.step {
                    BuildStep::Running | BuildStep::Owner | BuildStep::Finish => a.has_slot,
                    BuildStep::Sweep => !a.dry_run,
                    BuildStep::Done => a.ran is Some && a.ran->0,
                    BuildStep::Failed => a.ran is Some && !a.ran->0,
                    _ => true,
                })
                &&& a.has_slot == has_slot && a.dry_run == dry_run
                &&& a.announced == (has_slot && build_place(a.step) > build_place(BuildStep::Running))
                &&& (a.ran is Some <==> build_place(a.step) > build_place(BuildStep::Run))
                &&& (a.error is Some <==> a.ran is Some && !a.ran->0)
                &&& a.swept == (!dry_run && build_place(a.step) > build_place(BuildStep::Sweep))
                &&& build_place(a.step) > build_place(step) ==> (build_given(has_slot, dry_run, events, step) is Some
                    <==> (match step {
                            BuildStep::Running | BuildStep::Owner | BuildStep::Finish => a.has_slot,
                            BuildStep::Sweep => !a.dry_run,
                            BuildStep::Done => a.ran is Some && a.ran->0,
                            BuildStep::Failed => a.ran is Some && !a.ran->0,
                            _ => true,
                        }))
                &&& build_place(a.step) <= build_place(step) ==> build_given(has_slot, dry_run, events, step) is None
                &&& build_given(has_slot, dry_run, events, step) matches Some(e) ==> (match step {
                    BuildStep::Running => e is Succeeded,
                    BuildStep::Run => a.ran is Some && a.ran->0 == (e is Succeeded) && (e matches BuildNews::Failure(f) ==> a.error == Some(f)),
                    _ => true,
                })
            }
        }),
{
    lemma_build_after(has_slot, dry_run, events);
    let next = build_next();
    let at = build_at();
    let s = building(has_slot, dry_run);
    let places = |k: BuildStep| build_place(k);
    let dead = |a: Build| (a.step == BuildStep::Failed && a.ran is None);
    let inv = |a: Build| build_holds(a, has_slot, dry_run);
    let called = |a: Build, k: BuildStep| build_calls_for(a, k);
    let past = |a: Build| build_place(a.step) > build_place(step);
    let fact = |a: Build, e: BuildNews| build_goes_by(a, step, e);
    assert forall|a: Build, e: BuildNews|
        inv(a) && !dead(a) && !dead(#[trigger] next(a, e)) implies inv(next(a, e)) by {
        lemma_build_step(a, has_slot, dry_run, e, step);
    }
    assert forall|a: Build, e: BuildNews|
        inv(a) && !dead(a) && called(a, at(a)) && !dead(#[trigger] next(a, e)) implies {
        let b = next(a, e);
        &&& inv(b)
        &&& at(b) == at(a) ==> b == a
        &&& at(b) != at(a) ==> {
            &&& places(at(b)) > places(at(a))
            &&& called(b, at(b))
            &&& places(step) <= places(at(a)) ==> called(b, step) == called(a, step)
            &&& places(at(a)) < places(step) < places(at(b)) ==> !called(b, step)
        }
    } by {
        lemma_build_step(a, has_slot, dry_run, e, step);
    }
    course::lemma_taken(next, at, places, dead, inv, called, s, events, step);
    assert forall|a: Build, e: BuildNews|
        inv(a) && !dead(a) && !dead(#[trigger] next(a, e)) && at(a) == step && at(next(a, e))
            != step implies past(next(a, e)) && fact(next(a, e), e) by {
        lemma_build_step(a, has_slot, dry_run, e, step);
        lemma_build_told(a, has_slot, dry_run, e, step, e);
    }
    assert forall|a: Build, e: BuildNews, e0: BuildNews|
        #![trigger next(a, e), fact(a, e0)]
        inv(a) && !dead(a) && !dead(next(a, e)) && past(a) && fact(a, e0) implies past(next(a, e))
        && fact(next(a, e), e0) && at(a) != step by {
        lemma_build_step(a, has_slot, dry_run, e, step);
        lemma_build_told(a, has_slot, dry_run, e, step, e0);
    }
    course::lemma_told(next, at, dead, inv, past, fact, s, events, step);
}

/// Only the slot stops a build before it ran, and then with its own error.
pub proof fn only_the_slot_stops_a_build(b: Build, news: BuildNews)
    requires
        b.step != BuildStep::Done,
        b.step != BuildStep::Failed,
        b.ran is None,
        b.step == BuildStep::Running || b.step == BuildStep::Owner || b.step == BuildStep::Run,
    ensures
        (built(b, news).step == BuildStep::Failed && built(b, news).ran is None) <==> (b.step
            == BuildStep::Running && news is Failure),
        b.step == BuildStep::Running ==> (news matches BuildNews::Failure(e) ==> built(
            b,
            news,
        ).error == Some(e)),
{
}

/// A build covers a commit exactly where it was made of that commit and says that it went
/// well; what it says at its end is read back as how it ended.
pub proof fn a_build_covers_its_commit(b: BuildState, head: Seq<char>, went_well: bool)
    requires
        b.head is Some,
        b.head->0@ == head,
    ensures
        covers(Some(b), head, Some(end_said(went_well))) <==> went_well,
        !covers(Some(b), head, None),
        !covers(None, head, Some(end_said(went_well))),
{
    reveal_strlit("ok\n");
    reveal_strlit("ok");
    reveal_strlit("failed\n");
    let said = end_said(went_well);
    let bare = said.drop_last();
    assert(said.last() == '\n');
    assert(!text::is_space(said[0]));
    assert(!text::is_space(bare.last()));
    assert(text::trim_start(said) == said);
    reveal_with_fuel(text::trim_end, 3);
    assert(text::trim(said) == bare);
    if went_well {
        assert(bare =~= "ok"@);
    } else {
        assert(bare.len() == 6);
        assert("ok"@.len() == 2);
    }
}

} // verus!
