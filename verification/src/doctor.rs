//! What a checkup finds: for each tree, each checkout's configuration and each
//! repository, what is wrong and what to do about it.

use vstd::prelude::*;
use vstd::string::*;

use crate::assoc;
use crate::assoc::Assoc;
use crate::model;
use crate::model::{DerivedPhase, ProbeFound, ResourceState};
use crate::order;
use crate::order::Keyed;
use crate::path;
use crate::remove::DoorHolder;
use crate::text;

verus! {

broadcast use vstd::string::group_string_axioms;

// ---------------------------------------------------------------------------
// Findings
// ---------------------------------------------------------------------------

/// How bad a finding is.
#[derive(Clone, Copy, Debug, PartialEq, Eq, Structural)]
pub enum Severity {
    Error,
    Warn,
    Info,
}

/// Something that a checkup found.
#[derive(Debug)]
pub struct Finding {
    pub severity: Severity,
    pub code: String,
    pub subject: String,
    pub message: String,
    pub remedy: String,
}

/// What a finding says.
pub struct Issue {
    pub severity: Severity,
    pub code: Seq<char>,
    pub subject: Seq<char>,
    pub message: Seq<char>,
    pub remedy: Seq<char>,
}

impl View for Finding {
    type V = Issue;

    open spec fn view(&self) -> Issue {
        Issue {
            severity: self.severity,
            code: self.code@,
            subject: self.subject@,
            message: self.message@,
            remedy: self.remedy@,
        }
    }
}

/// A finding that says so.
pub open spec fn issue(
    severity: Severity,
    code: Seq<char>,
    subject: Seq<char>,
    message: Seq<char>,
    remedy: Seq<char>,
) -> Issue {
    Issue { severity, code, subject, message, remedy }
}

/// What findings say.
pub open spec fn issues(findings: Seq<Finding>) -> Seq<Issue> {
    findings.map_values(|f: Finding| f@)
}

/// No finding.
pub open spec fn none() -> Seq<Issue> {
    Seq::<Issue>::empty()
}

/// A finding where something holds.
pub open spec fn when(holds: bool, found: Issue) -> Seq<Issue> {
    if holds {
        seq![found]
    } else {
        none()
    }
}

/// The finding with the given parts.
pub fn finding(severity: Severity, code: &str, subject: &str, message: &str, remedy: &str) -> (r:
    Finding)
    ensures
        r@ == issue(severity, code@, subject@, message@, remedy@),
{
    Finding {
        severity,
        code: code.to_owned(),
        subject: subject.to_owned(),
        message: message.to_owned(),
        remedy: remedy.to_owned(),
    }
}

fn report(
    out: &mut Vec<Finding>,
    severity: Severity,
    code: &str,
    subject: &str,
    message: &str,
    remedy: &str,
)
    ensures
        issues(final(out)@) == issues(old(out)@) + seq![
            issue(severity, code@, subject@, message@, remedy@),
        ],
{
    out.push(finding(severity, code, subject, message, remedy));
    proof {
        assert(issues(out@) =~= issues(old(out)@) + seq![
            issue(severity, code@, subject@, message@, remedy@),
        ]);
    }
}

fn add_all(out: &mut Vec<Finding>, more: &Vec<Finding>)
    ensures
        issues(final(out)@) == issues(old(out)@) + issues(more@),
{
    let ghost before = issues(out@);
    let ghost all = issues(more@);
    let mut i: usize = 0;
    proof {
        assert(before + all.take(0) =~= before);
    }
    while i < more.len()
        invariant
            i <= more.len(),
            all == issues(more@),
            issues(out@) == before + all.take(i as int),
        decreases more.len() - i,
    {
        let f = &more[i];
        report(
            out,
            f.severity,
            f.code.as_str(),
            f.subject.as_str(),
            f.message.as_str(),
            f.remedy.as_str(),
        );
        proof {
            assert(all[i as int] == more@[i as int]@);
            assert(before + all.take(i as int) + seq![all[i as int]] =~= before + all.take(i + 1));
        }
        i = i + 1;
    }
    proof {
        assert(all.take(more@.len() as int) =~= all);
    }
}

// ---------------------------------------------------------------------------
// A tree
// ---------------------------------------------------------------------------

/// What is recorded of a resource.
#[derive(Debug)]
pub struct ResourceFacts {
    pub task: String,
    pub state: ResourceState,
    pub undeclared: bool,
    pub last_probe: Option<ProbeFound>,
    pub has_instance: bool,
}

/// What is recorded of a tree.
#[derive(Debug)]
pub struct StateFacts {
    pub verify_pending: bool,
    pub last_error: Option<String>,
    pub resources: Vec<ResourceFacts>,
}

/// How an automatic build stands, and where its log is.
#[derive(Debug)]
pub struct BuildFacts {
    pub state: String,
    pub log: String,
}

/// The ports of a tree, as they were set when it was made.
#[derive(Clone, Copy, Debug, PartialEq, Eq, Structural)]
pub struct Geometry {
    pub base: u16,
    pub stride: u8,
    pub port_base: u16,
}

/// A port of a tree, and whether something listens there.
#[derive(Debug)]
pub struct PortFacts {
    pub name: String,
    pub index: u8,
    pub bound: bool,
}

impl Keyed for PortFacts {
    open spec fn key(&self) -> Seq<Seq<int>> {
        seq![seq![self.index as int]]
    }

    fn sort_key(&self) -> (r: Vec<Vec<u64>>) {
        let mut key: Vec<Vec<u64>> = Vec::new();
        key.push(order::number_part(self.index as u64));
        proof {
            assert(order::key_view(key@) =~= seq![seq![self.index as int]]);
        }
        key
    }
}

/// What is seen inside of a tree that is there and is the one that was
/// registered: what its configuration and the names of its resources give, whether
/// git keeps a cache of its untracked files, the commit at HEAD, how HEAD stands
/// to the default branch where there is one, and whether its upstream is gone.
#[derive(Debug)]
pub struct InsideFacts {
    pub config: Vec<Finding>,
    pub names: Vec<Finding>,
    pub untracked_cache: Option<bool>,
    pub head: Option<String>,
    pub default: Option<DefaultFacts>,
    pub upstream_gone: bool,
}

/// Whether HEAD is an ancestor of the default branch, and the commit there.
#[derive(Debug)]
pub struct DefaultFacts {
    pub ancestor: bool,
    pub commit: Option<String>,
}

/// What is seen of a tree.
#[derive(Debug)]
pub struct TreeFacts {
    pub subject: String,
    pub label: String,
    pub path: String,
    pub canonical: bool,
    pub phase: DerivedPhase,
    pub state: Option<StateFacts>,
    pub build: Option<BuildFacts>,
    pub geometry: Geometry,
    pub settings_base: u16,
    pub settings_stride: u8,
    pub holders: Vec<DoorHolder>,
    pub lock_held: bool,
    pub session: String,
    pub dir_exists: bool,
    pub inside: Option<InsideFacts>,
}

/// What a phase gives rise to: how bad it is, under what code, and what to do.
pub open spec fn phase_rule(phase: DerivedPhase) -> Option<(Severity, Seq<char>, Seq<char>)> {
    match phase {
        DerivedPhase::Missing => Some(
            (Severity::Warn, "TREE_MISSING"@, "run `wt prune` or `wt remove`"@),
        ),
        DerivedPhase::Replaced => Some(
            (
                Severity::Error,
                "TREE_REPLACED"@,
                "do not touch the replacement; run `wt prune --records` or `wt adopt`"@,
            ),
        ),
        DerivedPhase::Incomplete => Some(
            (
                Severity::Warn,
                "TREE_INCOMPLETE"@,
                "re-run `wt new` to resume or run `wt remove`"@,
            ),
        ),
        DerivedPhase::Interrupted => Some(
            (Severity::Warn, "TREE_INTERRUPTED"@, "re-run `wt new` or `wt sync`"@),
        ),
        DerivedPhase::InitInterrupted => Some(
            (Severity::Warn, "INIT_INTERRUPTED"@, "re-run `wt register` or `wt adopt`"@),
        ),
        DerivedPhase::RemoveInterrupted => Some(
            (Severity::Warn, "REMOVE_INTERRUPTED"@, "re-run `wt remove`"@),
        ),
        DerivedPhase::Claimed => Some((Severity::Warn, "TREE_CLAIMED"@, "re-run `wt new`"@)),
        _ => None,
    }
}

/// What a phase gives rise to.
pub fn phase_finding(phase: DerivedPhase) -> (r: Option<(Severity, &'static str, &'static str)>)
    ensures
        match r {
            Some(f) => Some((f.0, f.1@, f.2@)),
            None => None,
        } == phase_rule(phase),
{
    match phase {
        DerivedPhase::Missing => Some(
            (Severity::Warn, "TREE_MISSING", "run `wt prune` or `wt remove`"),
        ),
        DerivedPhase::Replaced => Some(
            (
                Severity::Error,
                "TREE_REPLACED",
                "do not touch the replacement; run `wt prune --records` or `wt adopt`",
            ),
        ),
        DerivedPhase::Incomplete => Some(
            (Severity::Warn, "TREE_INCOMPLETE", "re-run `wt new` to resume or run `wt remove`"),
        ),
        DerivedPhase::Interrupted => Some(
            (Severity::Warn, "TREE_INTERRUPTED", "re-run `wt new` or `wt sync`"),
        ),
        DerivedPhase::InitInterrupted => Some(
            (Severity::Warn, "INIT_INTERRUPTED", "re-run `wt register` or `wt adopt`"),
        ),
        DerivedPhase::RemoveInterrupted => Some(
            (Severity::Warn, "REMOVE_INTERRUPTED", "re-run `wt remove`"),
        ),
        DerivedPhase::Claimed => Some((Severity::Warn, "TREE_CLAIMED", "re-run `wt new`")),
        _ => None,
    }
}

/// What the phase of a tree gives. The replacement of a canonical checkout can only
/// be repaired.
pub open spec fn phase_issues(t: TreeFacts) -> Seq<Issue> {
    match phase_rule(t.phase) {
        None => none(),
        Some(rule) => seq![
            issue(
                rule.0,
                rule.1,
                t.subject@,
                "tree phase is "@ + model::phase_text(t.phase),
                if t.phase == DerivedPhase::Replaced && t.canonical {
                    "run `wt register "@ + t.path@ + " --label "@ + t.label@ + " --repair`"@
                } else {
                    rule.2
                },
            ),
        ],
    }
}

fn add_phase(t: &TreeFacts, out: &mut Vec<Finding>)
    ensures
        issues(final(out)@) == issues(old(out)@) + phase_issues(*t),
{
    if let Some((severity, code, remedy)) = phase_finding(t.phase) {
        let remedy = if t.phase == DerivedPhase::Replaced && t.canonical {
            "run `wt register ".to_owned().concat(t.path.as_str()).concat(" --label ").concat(
                t.label.as_str(),
            ).concat(" --repair`")
        } else {
            remedy.to_owned()
        };
        let message = "tree phase is ".to_owned().concat(model::phase_name(t.phase));
        report(out, severity, code, t.subject.as_str(), message.as_str(), remedy.as_str());
    }
}

/// What an automatic build gives.
pub open spec fn build_issues(t: TreeFacts) -> Seq<Issue> {
    match t.build {
        None => none(),
        Some(b) => if b.state@ == "running"@ {
            seq![
                issue(
                    Severity::Info,
                    "BUILD_RUNNING"@,
                    t.subject@,
                    "automatic build is running; log: "@ + b.log@,
                    "wait for completion or inspect the build log"@,
                ),
            ]
        } else if b.state@ == "abandoned"@ {
            seq![
                issue(
                    Severity::Warn,
                    "BUILD_ABANDONED"@,
                    t.subject@,
                    "automatic build was abandoned; log: "@ + b.log@,
                    "inspect the log and run `wt build "@ + t.subject@ + "` to retry"@,
                ),
            ]
        } else if b.state@ == "failed"@ {
            seq![
                issue(
                    Severity::Warn,
                    "BUILD_FAILED"@,
                    t.subject@,
                    "automatic build failed; log: "@ + b.log@,
                    "inspect the log and run `wt build` to retry"@,
                ),
            ]
        } else if b.state@ == "unknown"@ {
            seq![
                issue(
                    Severity::Warn,
                    "BUILD_STATUS_MISSING"@,
                    t.subject@,
                    "automatic build status is unavailable; log: "@ + b.log@,
                    "inspect the log and run `wt build` to establish a fresh status"@,
                ),
            ]
        } else if b.state@ == "ok"@ {
            none()
        } else {
            seq![
                issue(
                    Severity::Warn,
                    "BUILD_STATUS_UNKNOWN"@,
                    t.subject@,
                    "automatic build has unrecognised status `"@ + b.state@ + "`; log: "@ + b.log@,
                    "inspect the log and run `wt build "@ + t.subject@
                        + "` to establish a fresh status"@,
                ),
            ]
        },
    }
}

fn add_build(t: &TreeFacts, out: &mut Vec<Finding>)
    ensures
        issues(final(out)@) == issues(old(out)@) + build_issues(*t),
{
    let b = match &t.build {
        None => return,
        Some(b) => b,
    };
    let subject = t.subject.as_str();
    let log = b.log.as_str();
    if text::same(b.state.as_str(), "running") {
        let message = "automatic build is running; log: ".to_owned().concat(log);
        report(
            out,
            Severity::Info,
            "BUILD_RUNNING",
            subject,
            message.as_str(),
            "wait for completion or inspect the build log",
        );
    } else if text::same(b.state.as_str(), "abandoned") {
        let message = "automatic build was abandoned; log: ".to_owned().concat(log);
        let remedy = "inspect the log and run `wt build ".to_owned().concat(subject).concat(
            "` to retry",
        );
        report(
            out,
            Severity::Warn,
            "BUILD_ABANDONED",
            subject,
            message.as_str(),
            remedy.as_str(),
        );
    } else if text::same(b.state.as_str(), "failed") {
        let message = "automatic build failed; log: ".to_owned().concat(log);
        report(
            out,
            Severity::Warn,
            "BUILD_FAILED",
            subject,
            message.as_str(),
            "inspect the log and run `wt build` to retry",
        );
    } else if text::same(b.state.as_str(), "unknown") {
        let message = "automatic build status is unavailable; log: ".to_owned().concat(log);
        report(
            out,
            Severity::Warn,
            "BUILD_STATUS_MISSING",
            subject,
            message.as_str(),
            "inspect the log and run `wt build` to establish a fresh status",
        );
    } else if !text::same(b.state.as_str(), "ok") {
        let message = "automatic build has unrecognised status `".to_owned().concat(
            b.state.as_str(),
        ).concat("`; log: ").concat(log);
        let remedy = "inspect the log and run `wt build ".to_owned().concat(subject).concat(
            "` to establish a fresh status",
        );
        report(
            out,
            Severity::Warn,
            "BUILD_STATUS_UNKNOWN",
            subject,
            message.as_str(),
            remedy.as_str(),
        );
    }
}

/// What is recorded of a tree gives, apart from its resources.
pub open spec fn state_issues(t: TreeFacts, s: StateFacts) -> Seq<Issue> {
    when(
        t.phase == DerivedPhase::Missing && s.resources@.len() > 0,
        issue(
            Severity::Warn,
            "TREE_MISSING_PENDING"@,
            t.subject@,
            "missing tree still has resource records"@,
            "run `wt prune --records` before recreating the name"@,
        ),
    ) + match text::opt(s.last_error) {
        None => none(),
        Some(e) => match text::after(e, "REFRESH_SKIPPED:"@) {
            None => none(),
            Some(skipped) => seq![
                issue(
                    Severity::Warn,
                    "REFRESH_SKIPPED"@,
                    t.subject@ + ":"@ + skipped,
                    "resource declaration refresh was skipped because an environment value was undefined"@,
                    "define the missing environment value and run `wt sync`"@,
                ),
            ],
        },
    }
}

/// What one resource gives.
pub open spec fn resource_issues(subject: Seq<char>, r: ResourceFacts) -> Seq<Issue> {
    let about = subject + ":"@ + r.task@;
    when(
        r.state == ResourceState::Orphaned,
        issue(
            Severity::Warn,
            "RESOURCE_ORPHANED"@,
            about,
            "resource teardown is orphaned"@,
            "restore the dependency and run `wt prune --records`"@,
        ),
    ) + when(
        r.undeclared,
        issue(
            Severity::Warn,
            "RESOURCE_UNDECLARED"@,
            about,
            "resource record is no longer declared"@,
            "destroy the resource or restore its declaration"@,
        ),
    ) + when(
        r.last_probe == Some(ProbeFound::Failed),
        issue(
            Severity::Warn,
            "RESOURCE_PROBE_FAILED"@,
            about,
            "resource probe failed"@,
            "restore the probe dependency and retry with --probe"@,
        ),
    ) + when(
        r.state == ResourceState::Declared && r.last_probe == Some(ProbeFound::Absent)
            && r.has_instance,
        issue(
            Severity::Info,
            "RESOURCE_GONE"@,
            about,
            "previously instantiated resource is absent"@,
            "run its task to recreate it or remove the stale record"@,
        ),
    )
}

/// What resources give.
pub open spec fn all_resource_issues(subject: Seq<char>, resources: Seq<ResourceFacts>) -> Seq<
    Issue,
>
    decreases resources.len(),
{
    if resources.len() == 0 {
        none()
    } else {
        all_resource_issues(subject, resources.drop_last()) + resource_issues(
            subject,
            resources.last(),
        )
    }
}

/// What the record of a tree gives.
pub open spec fn recorded_issues(t: TreeFacts) -> Seq<Issue> {
    match t.state {
        None => none(),
        Some(s) => state_issues(t, s) + all_resource_issues(t.subject@, s.resources@),
    }
}

fn add_resource(subject: &str, r: &ResourceFacts, out: &mut Vec<Finding>)
    ensures
        issues(final(out)@) == issues(old(out)@) + resource_issues(subject@, *r),
{
    let about = subject.to_owned().concat(":").concat(r.task.as_str());
    if r.state == ResourceState::Orphaned {
        report(
            out,
            Severity::Warn,
            "RESOURCE_ORPHANED",
            about.as_str(),
            "resource teardown is orphaned",
            "restore the dependency and run `wt prune --records`",
        );
    }
    if r.undeclared {
        report(
            out,
            Severity::Warn,
            "RESOURCE_UNDECLARED",
            about.as_str(),
            "resource record is no longer declared",
            "destroy the resource or restore its declaration",
        );
    }
    let (failed, absent) = match r.last_probe {
        Some(ProbeFound::Failed) => (true, false),
        Some(ProbeFound::Absent) => (false, true),
        _ => (false, false),
    };
    if failed {
        report(
            out,
            Severity::Warn,
            "RESOURCE_PROBE_FAILED",
            about.as_str(),
            "resource probe failed",
            "restore the probe dependency and retry with --probe",
        );
    }
    if r.state == ResourceState::Declared && absent && r.has_instance {
        report(
            out,
            Severity::Info,
            "RESOURCE_GONE",
            about.as_str(),
            "previously instantiated resource is absent",
            "run its task to recreate it or remove the stale record",
        );
    }
}

fn add_recorded(t: &TreeFacts, out: &mut Vec<Finding>)
    ensures
        issues(final(out)@) == issues(old(out)@) + recorded_issues(*t),
{
    let s = match &t.state {
        None => return,
        Some(s) => s,
    };
    let ghost start = issues(out@);
    if t.phase == DerivedPhase::Missing && s.resources.len() > 0 {
        report(
            out,
            Severity::Warn,
            "TREE_MISSING_PENDING",
            t.subject.as_str(),
            "missing tree still has resource records",
            "run `wt prune --records` before recreating the name",
        );
    }
    if let Some(error) = &s.last_error {
        if let Some(skipped) = text::strip_prefix(error.as_str(), "REFRESH_SKIPPED:") {
            let about = t.subject.clone().concat(":").concat(skipped.as_str());
            report(
                out,
                Severity::Warn,
                "REFRESH_SKIPPED",
                about.as_str(),
                "resource declaration refresh was skipped because an environment value was undefined",
                "define the missing environment value and run `wt sync`",
            );
        }
    }
    proof {
        assert(issues(out@) =~= start + state_issues(*t, *s));
    }
    let ghost mid = issues(out@);
    let mut i: usize = 0;
    proof {
        assert(mid + all_resource_issues(t.subject@, s.resources@.take(0)) =~= mid);
    }
    while i < s.resources.len()
        invariant
            i <= s.resources.len(),
            issues(out@) == mid + all_resource_issues(t.subject@, s.resources@.take(i as int)),
        decreases s.resources.len() - i,
    {
        let ghost so_far = all_resource_issues(t.subject@, s.resources@.take(i as int));
        add_resource(t.subject.as_str(), &s.resources[i], out);
        proof {
            assert(s.resources@.take(i + 1).drop_last() =~= s.resources@.take(i as int));
            let one = resource_issues(t.subject@, s.resources@[i as int]);
            assert((mid + so_far) + one =~= mid + (so_far + one));
        }
        i = i + 1;
    }
    proof {
        assert(s.resources@.take(s.resources@.len() as int) =~= s.resources@);
        let all = all_resource_issues(t.subject@, s.resources@);
        assert((start + state_issues(*t, *s)) + all =~= start + (state_issues(*t, *s) + all));
    }
}

/// What a door is called.
pub open spec fn door_text(d: DoorHolder) -> Seq<char> {
    "pid "@ + text::decimal(d.pid as nat) + " ("@ + d.verb@ + ")"@
}

/// What doors are called.
pub open spec fn door_texts(doors: Seq<DoorHolder>) -> Seq<Seq<char>> {
    doors.map_values(|d: DoorHolder| door_text(d))
}

/// What the ports and the lock of a tree give, apart from what listens there.
pub open spec fn use_issues(t: TreeFacts, ports: int) -> Seq<Issue> {
    when(
        t.geometry.base != t.settings_base || t.geometry.stride != t.settings_stride,
        issue(
            Severity::Info,
            "GEOMETRY_CHANGED"@,
            t.subject@,
            "current settings differ from this tree's frozen port geometry"@,
            "remove and recreate the tree to adopt the new geometry"@,
        ),
    ) + when(
        ports >= t.geometry.stride,
        issue(
            Severity::Warn,
            "PORTS_EXHAUSTED"@,
            t.subject@,
            "tree has no unallocated port index"@,
            "remove and recreate the tree or raise stride for future trees"@,
        ),
    ) + when(
        t.lock_held,
        issue(
            Severity::Info,
            "TREE_IN_USE"@,
            t.subject@,
            if t.holders@.len() == 0 {
                "tree lock is currently held"@
            } else {
                "tree lock is held by "@ + text::join(door_texts(t.holders@), ", "@)
            },
            "wait for the holder or stop the process"@,
        ),
    )
}

/// What doors are called.
pub fn doors_text(doors: &Vec<DoorHolder>) -> (r: Vec<String>)
    ensures
        text::texts(r@) == door_texts(doors@),
{
    let mut out: Vec<String> = Vec::new();
    let mut i: usize = 0;
    while i < doors.len()
        invariant
            i <= doors.len(),
            out@.len() == i,
            forall|k: int| 0 <= k < i ==> (#[trigger] out@[k])@ == door_text(doors@[k]),
        decreases doors.len() - i,
    {
        out.push(
            "pid ".to_owned().concat(text::decimal_of(doors[i].pid as u64).as_str()).concat(
                " (",
            ).concat(doors[i].verb.as_str()).concat(")"),
        );
        i = i + 1;
    }
    proof {
        assert(text::texts(out@) =~= door_texts(doors@));
    }
    out
}

fn add_use(t: &TreeFacts, ports: usize, out: &mut Vec<Finding>)
    ensures
        issues(final(out)@) == issues(old(out)@) + use_issues(*t, ports as int),
{
    if t.geometry.base != t.settings_base || t.geometry.stride != t.settings_stride {
        report(
            out,
            Severity::Info,
            "GEOMETRY_CHANGED",
            t.subject.as_str(),
            "current settings differ from this tree's frozen port geometry",
            "remove and recreate the tree to adopt the new geometry",
        );
    }
    if ports >= t.geometry.stride as usize {
        report(
            out,
            Severity::Warn,
            "PORTS_EXHAUSTED",
            t.subject.as_str(),
            "tree has no unallocated port index",
            "remove and recreate the tree or raise stride for future trees",
        );
    }
    if t.lock_held {
        let message = if t.holders.len() == 0 {
            "tree lock is currently held".to_owned()
        } else {
            let doors = doors_text(&t.holders);
            let joined = text::join_with(&doors, ", ");
            "tree lock is held by ".to_owned().concat(joined.as_str())
        };
        report(
            out,
            Severity::Info,
            "TREE_IN_USE",
            t.subject.as_str(),
            message.as_str(),
            "wait for the holder or stop the process",
        );
    }
}

/// Whether a task runs behind one of the doors.
pub open spec fn runs_task(doors: Seq<DoorHolder>) -> bool {
    exists|i: int| 0 <= i < doors.len() && (#[trigger] doors[i]).verb@ == "run"@
}

/// Whether nothing of this tree accounts for a listener: neither a session nor a
/// task.
pub open spec fn unexplained(t: TreeFacts) -> bool {
    t.session@ != "yes"@ && !runs_task(t.holders@)
}

/// What one port gives.
pub open spec fn port_issues(t: TreeFacts, p: PortFacts) -> Seq<Issue> {
    if !p.bound {
        none()
    } else {
        let about = t.subject@ + ":"@ + p.name@;
        let port = text::decimal((t.geometry.port_base + p.index) as nat);
        when(
            unexplained(t),
            issue(
                Severity::Warn,
                "PORT_SQUATTED"@,
                about,
                "port "@ + port + " is bound without a wt session"@,
                "stop the unrelated listener or recreate the tree in another slot"@,
            ),
        ) + seq![
            issue(
                Severity::Info,
                "PORT_BOUND"@,
                about,
                "port "@ + port + " is bound"@,
                "inspect the listener if the binding is unexpected"@,
            ),
        ]
    }
}

/// What ports give.
pub open spec fn all_port_issues(t: TreeFacts, ports: Seq<PortFacts>) -> Seq<Issue>
    decreases ports.len(),
{
    if ports.len() == 0 {
        none()
    } else {
        all_port_issues(t, ports.drop_last()) + port_issues(t, ports.last())
    }
}

/// Whether something listens at one of the ports.
pub open spec fn any_bound(ports: Seq<PortFacts>) -> bool {
    exists|i: int| 0 <= i < ports.len() && (#[trigger] ports[i]).bound
}

/// What the listeners at a tree's ports give, in the order of the ports.
pub open spec fn listener_issues(t: TreeFacts, ports: Seq<PortFacts>) -> Seq<Issue> {
    all_port_issues(t, ports) + when(
        any_bound(ports) && unexplained(t),
        issue(
            Severity::Info,
            "SLOT_SQUATTED"@,
            t.subject@,
            "one or more ports in this tree's allocated slot are occupied"@,
            "stop the unrelated listener or recreate the tree in another slot"@,
        ),
    )
}

fn has_task(doors: &Vec<DoorHolder>) -> (r: bool)
    ensures
        r == runs_task(doors@),
{
    let mut i: usize = 0;
    while i < doors.len()
        invariant
            i <= doors.len(),
            forall|k: int| 0 <= k < i ==> (#[trigger] doors@[k]).verb@ != "run"@,
        decreases doors.len() - i,
    {
        if text::same(doors[i].verb.as_str(), "run") {
            return true;
        }
        i = i + 1;
    }
    false
}

fn add_port(t: &TreeFacts, p: &PortFacts, strange: bool, out: &mut Vec<Finding>)
    requires
        t.geometry.port_base + p.index <= u16::MAX,
        strange == unexplained(*t),
    ensures
        issues(final(out)@) == issues(old(out)@) + port_issues(*t, *p),
{
    if !p.bound {
        return;
    }
    let about = t.subject.clone().concat(":").concat(p.name.as_str());
    let number: u64 = t.geometry.port_base as u64 + p.index as u64;
    let port = text::decimal_of(number);
    if strange {
        let message = "port ".to_owned().concat(port.as_str()).concat(
            " is bound without a wt session",
        );
        report(
            out,
            Severity::Warn,
            "PORT_SQUATTED",
            about.as_str(),
            message.as_str(),
            "stop the unrelated listener or recreate the tree in another slot",
        );
    }
    let message = "port ".to_owned().concat(port.as_str()).concat(" is bound");
    report(
        out,
        Severity::Info,
        "PORT_BOUND",
        about.as_str(),
        message.as_str(),
        "inspect the listener if the binding is unexpected",
    );
}

/// Whether a port has a number.
pub open spec fn numbered(g: Geometry, ports: Seq<PortFacts>) -> bool {
    forall|i: int| 0 <= i < ports.len() ==> g.port_base + (#[trigger] ports[i]).index <= u16::MAX
}


fn add_listeners(t: &TreeFacts, ports: &Vec<PortFacts>, out: &mut Vec<Finding>)
    requires
        numbered(t.geometry, ports@),
    ensures
        issues(final(out)@) == issues(old(out)@) + listener_issues(*t, ports@),
{
    let strange = !text::same(t.session.as_str(), "yes") && !has_task(&t.holders);
    let ghost start = issues(out@);
    let mut bound = false;
    let mut i: usize = 0;
    proof {
        assert(start + all_port_issues(*t, ports@.take(0)) =~= start);
    }
    while i < ports.len()
        invariant
            i <= ports.len(),
            numbered(t.geometry, ports@),
            strange == unexplained(*t),
            bound == any_bound(ports@.take(i as int)),
            issues(out@) == start + all_port_issues(*t, ports@.take(i as int)),
        decreases ports.len() - i,
    {
        let ghost so_far = all_port_issues(*t, ports@.take(i as int));
        let ghost was = ports@.take(i as int);
        let ghost now = ports@.take(i + 1);
        add_port(t, &ports[i], strange, out);
        proof {
            assert(now.drop_last() =~= was);
            let one = port_issues(*t, ports@[i as int]);
            assert((start + so_far) + one =~= start + (so_far + one));
            assert(now[i as int] == ports@[i as int]);
            if any_bound(was) {
                let k = choose|k: int| 0 <= k < was.len() && (#[trigger] was[k]).bound;
                assert(now[k].bound);
            }
            if any_bound(now) {
                let k = choose|k: int| 0 <= k < now.len() && (#[trigger] now[k]).bound;
                if k < i {
                    assert(was[k].bound);
                }
            }
        }
        if ports[i].bound {
            bound = true;
        }
        i = i + 1;
    }
    proof {
        assert(ports@.take(ports@.len() as int) =~= ports@);
    }
    if bound && strange {
        report(
            out,
            Severity::Info,
            "SLOT_SQUATTED",
            t.subject.as_str(),
            "one or more ports in this tree's allocated slot are occupied",
            "stop the unrelated listener or recreate the tree in another slot",
        );
    }
    proof {
        assert(issues(out@) =~= start + listener_issues(*t, ports@));
    }
}

/// Whether the branch of a tree is merged: HEAD lies before the default branch, and
/// is not its end. A canonical checkout has no branch of its own.
pub open spec fn branch_merged(canonical: bool, f: InsideFacts) -> bool {
    !canonical && match f.default {
        Some(d) => d.ancestor && text::opt(f.head) != text::opt(d.commit),
        None => false,
    }
}

/// What is seen inside of a tree gives.
pub open spec fn inside_issues(t: TreeFacts, f: InsideFacts) -> Seq<Issue> {
    issues(f.config@) + issues(f.names@) + when(
        f.untracked_cache != Some(true),
        issue(
            Severity::Info,
            "STATUS_CACHE_OFF"@,
            t.subject@,
            "git's untracked cache is off, so each status scans the whole tree"@,
            "run `git config core.untrackedCache true` in this checkout (on macOS or Windows also `git config core.fsmonitor true`)"@,
        ),
    ) + when(
        branch_merged(t.canonical, f),
        issue(
            Severity::Info,
            "BRANCH_MERGED"@,
            t.subject@,
            "branch is merged into the default branch"@,
            "run `wt prune --merged` after reviewing the tree"@,
        ),
    ) + when(
        f.upstream_gone,
        issue(
            Severity::Warn,
            "UPSTREAM_GONE"@,
            t.subject@,
            "configured upstream no longer exists"@,
            "push a replacement upstream or run `wt prune --gone`"@,
        ),
    )
}

fn add_inside(t: &TreeFacts, f: &InsideFacts, out: &mut Vec<Finding>)
    ensures
        issues(final(out)@) == issues(old(out)@) + inside_issues(*t, *f),
{
    add_all(out, &f.config);
    add_all(out, &f.names);
    let cached = match f.untracked_cache {
        Some(on) => on,
        None => false,
    };
    if !cached {
        report(
            out,
            Severity::Info,
            "STATUS_CACHE_OFF",
            t.subject.as_str(),
            "git's untracked cache is off, so each status scans the whole tree",
            "run `git config core.untrackedCache true` in this checkout (on macOS or Windows also `git config core.fsmonitor true`)",
        );
    }
    let merged = !t.canonical && match &f.default {
        Some(d) => d.ancestor && !text::same_option(&f.head, &d.commit),
        None => false,
    };
    if merged {
        report(
            out,
            Severity::Info,
            "BRANCH_MERGED",
            t.subject.as_str(),
            "branch is merged into the default branch",
            "run `wt prune --merged` after reviewing the tree",
        );
    }
    if f.upstream_gone {
        report(
            out,
            Severity::Warn,
            "UPSTREAM_GONE",
            t.subject.as_str(),
            "configured upstream no longer exists",
            "push a replacement upstream or run `wt prune --gone`",
        );
    }
}

/// Whether a tree is looked into: it is there, and it is the one that was
/// registered.
pub open spec fn looked_into(t: TreeFacts) -> bool {
    t.dir_exists && t.phase != DerivedPhase::Replaced
}

/// All that a tree gives.
pub open spec fn tree_issues(t: TreeFacts, ports: Seq<PortFacts>) -> Seq<Issue> {
    phase_issues(t) + when(
        t.state matches Some(s) && s.verify_pending,
        issue(
            Severity::Warn,
            "VERIFY_PENDING"@,
            t.subject@,
            "verification is pending"@,
            "re-run `wt new --verify` for this tree"@,
        ),
    ) + build_issues(t) + recorded_issues(t) + use_issues(t, ports.len() as int) + listener_issues(
        t,
        order::sorted(ports),
    ) + if looked_into(t) {
        inside_issues(t, t.inside->0)
    } else {
        none()
    }
}

/// Whether a tree is looked into.
pub fn looks_inside(t: &TreeFacts) -> (r: bool)
    ensures
        r == looked_into(*t),
{
    t.dir_exists && t.phase != DerivedPhase::Replaced
}

/// Finds what is wrong with a tree: with its phase, its build, its record and its
/// resources, its ports and who uses them, and, where it is looked into, with its
/// configuration and its branch.
pub fn tree_findings(t: &TreeFacts, ports: Vec<PortFacts>) -> (r: Vec<Finding>)
    requires
        numbered(t.geometry, ports@),
        looked_into(*t) ==> t.inside is Some,
    ensures
        issues(r@) == tree_issues(*t, ports@),
{
    let mut out: Vec<Finding> = Vec::new();
    proof {
        assert(issues(out@) =~= none());
    }
    add_phase(t, &mut out);
    let pending = match &t.state {
        Some(s) => s.verify_pending,
        None => false,
    };
    if pending {
        report(
            &mut out,
            Severity::Warn,
            "VERIFY_PENDING",
            t.subject.as_str(),
            "verification is pending",
            "re-run `wt new --verify` for this tree",
        );
    }
    add_build(t, &mut out);
    add_recorded(t, &mut out);
    add_use(t, ports.len(), &mut out);
    let ghost given = ports@;
    let ports = order::sort(ports);
    proof {
        assert forall|i: int| 0 <= i < ports@.len() implies t.geometry.port_base + (
        #[trigger] ports@[i]).index <= u16::MAX by {
            order::sorted_from(given, i);
        }
    }
    add_listeners(t, &ports, &mut out);
    if looks_inside(t) {
        if let Some(f) = &t.inside {
            add_inside(t, f, &mut out);
        }
    }
    proof {
        assert(issues(out@) =~= tree_issues(*t, given));
    }
    out
}

/// A directory that took the place of a tree is not looked into: nothing of its
/// configuration or branch is reported.
pub proof fn a_replacement_is_not_looked_into(t: TreeFacts, ports: Seq<PortFacts>, f: InsideFacts)
    requires
        t.phase == DerivedPhase::Replaced,
    ensures
        tree_issues(t, ports) == tree_issues(TreeFacts { inside: Some(f), ..t }, ports),
{
    let u = TreeFacts { inside: Some(f), ..t };
    lemma_ports_ignore_inside(t, u, order::sorted(ports));
    assert(listener_issues(t, order::sorted(ports)) =~= listener_issues(u, order::sorted(ports)));
    assert(recorded_issues(t) =~= recorded_issues(u));
    assert(use_issues(t, ports.len() as int) =~= use_issues(u, ports.len() as int));
    assert(build_issues(t) =~= build_issues(u));
    assert(phase_issues(t) =~= phase_issues(u));
}

proof fn lemma_ports_ignore_inside(t: TreeFacts, u: TreeFacts, ports: Seq<PortFacts>)
    requires
        t.subject == u.subject,
        t.geometry == u.geometry,
        t.session == u.session,
        t.holders == u.holders,
    ensures
        all_port_issues(t, ports) == all_port_issues(u, ports),
    decreases ports.len(),
{
    if ports.len() > 0 {
        lemma_ports_ignore_inside(t, u, ports.drop_last());
        assert(port_issues(t, ports.last()) =~= port_issues(u, ports.last()));
    }
}

/// A tree that is ready, without a build, records, users or listeners, and of which
/// nothing inside is wrong, gives no finding.
pub proof fn a_sound_tree_gives_nothing(t: TreeFacts, ports: Seq<PortFacts>)
    requires
        t.phase == DerivedPhase::Ready,
        t.state is None,
        t.build is None,
        t.geometry.base == t.settings_base,
        t.geometry.stride == t.settings_stride,
        ports.len() < t.geometry.stride,
        !any_bound(order::sorted(ports)),
        !t.lock_held,
        looked_into(t) ==> inside_issues(t, t.inside->0) == none(),
    ensures
        tree_issues(t, ports) == none(),
{
    lemma_no_listener(t, order::sorted(ports));
    assert(tree_issues(t, ports) =~= none());
}

proof fn lemma_no_listener(t: TreeFacts, ports: Seq<PortFacts>)
    requires
        !any_bound(ports),
    ensures
        all_port_issues(t, ports) == none(),
    decreases ports.len(),
{
    if ports.len() > 0 {
        let rest = ports.drop_last();
        assert(!ports[ports.len() - 1].bound);
        if any_bound(rest) {
            let k = choose|k: int| 0 <= k < rest.len() && (#[trigger] rest[k]).bound;
            assert(ports[k].bound);
        }
        lemma_no_listener(t, rest);
        assert(all_port_issues(t, ports) =~= none());
    }
}

// ---------------------------------------------------------------------------
// A configuration
// ---------------------------------------------------------------------------

/// An owned command: its shim, whether the shim leads to something that runs, and
/// whether the shell has something else under its name.
#[derive(Debug)]
pub struct ShimFacts {
    pub command: String,
    pub path: String,
    pub broken: bool,
    pub shadowed: bool,
}

/// A declared directory of binaries.
#[derive(Debug)]
pub struct BinFacts {
    pub path: String,
    pub is_dir: bool,
}

/// What is seen of a checkout's configuration: what its lack of coordination
/// gives, its owned commands and directories of binaries, the search path, whether
/// it declares a verify task, what its adapters give where there are any, the names
/// in its directory, and its exclude file.
#[derive(Debug)]
pub struct ConfigFacts {
    pub subject: String,
    pub canonical: bool,
    pub coordination: Vec<Finding>,
    pub root: String,
    pub shims: Vec<ShimFacts>,
    pub bins: Vec<BinFacts>,
    pub search: Option<String>,
    pub has_verify: bool,
    pub adapters: Option<Vec<Finding>>,
    pub names: Vec<String>,
    pub exclude: String,
}

/// What one shim gives.
pub open spec fn shim_issues(target: Seq<char>, s: ShimFacts) -> Seq<Issue> {
    let about = target + ":"@ + s.command@;
    when(
        s.broken,
        issue(
            Severity::Warn,
            "SHIM_BROKEN"@,
            about,
            "owned command shim "@ + s.path@ + " is missing or broken"@,
            "run `wt env "@ + target + "` to repair the shim"@,
        ),
    ) + when(
        s.shadowed,
        issue(
            Severity::Info,
            "SHIM_SHADOWED"@,
            about,
            "shell alias or function `"@ + s.command@ + "` outranks the owned command shim"@,
            "remove the `"@ + s.command@ + "` alias or function to use the tree's command"@,
        ),
    )
}

/// What shims give.
pub open spec fn all_shim_issues(target: Seq<char>, shims: Seq<ShimFacts>) -> Seq<Issue>
    decreases shims.len(),
{
    if shims.len() == 0 {
        none()
    } else {
        all_shim_issues(target, shims.drop_last()) + shim_issues(target, shims.last())
    }
}

/// Finds what is wrong with owned commands.
pub fn shim_findings(target: &str, shims: &Vec<ShimFacts>, out: &mut Vec<Finding>)
    ensures
        issues(final(out)@) == issues(old(out)@) + all_shim_issues(target@, shims@),
{
    let ghost start = issues(out@);
    let mut i: usize = 0;
    proof {
        assert(start + all_shim_issues(target@, shims@.take(0)) =~= start);
    }
    while i < shims.len()
        invariant
            i <= shims.len(),
            issues(out@) == start + all_shim_issues(target@, shims@.take(i as int)),
        decreases shims.len() - i,
    {
        let ghost so_far = all_shim_issues(target@, shims@.take(i as int));
        let s = &shims[i];
        let about = target.to_owned().concat(":").concat(s.command.as_str());
        if s.broken {
            let message = "owned command shim ".to_owned().concat(s.path.as_str()).concat(
                " is missing or broken",
            );
            let remedy = "run `wt env ".to_owned().concat(target).concat("` to repair the shim");
            report(
                out,
                Severity::Warn,
                "SHIM_BROKEN",
                about.as_str(),
                message.as_str(),
                remedy.as_str(),
            );
        }
        if s.shadowed {
            let message = "shell alias or function `".to_owned().concat(
                s.command.as_str(),
            ).concat("` outranks the owned command shim");
            let remedy = "remove the `".to_owned().concat(s.command.as_str()).concat(
                "` alias or function to use the tree's command",
            );
            report(
                out,
                Severity::Info,
                "SHIM_SHADOWED",
                about.as_str(),
                message.as_str(),
                remedy.as_str(),
            );
        }
        proof {
            assert(shims@.take(i + 1).drop_last() =~= shims@.take(i as int));
            assert(issues(out@) =~= start + (so_far + shim_issues(target@, shims@[i as int])));
        }
        i = i + 1;
    }
    proof {
        assert(shims@.take(shims@.len() as int) =~= shims@);
    }
}

/// What one directory of binaries gives.
pub open spec fn bin_issues(subject: Seq<char>, b: BinFacts) -> Seq<Issue> {
    when(
        !b.is_dir,
        issue(
            Severity::Warn,
            "BIN_DIR_MISSING"@,
            subject,
            "declared bin directory "@ + b.path@ + " is missing"@,
            "create the directory by running the build task"@,
        ),
    )
}

/// What directories of binaries give.
pub open spec fn all_bin_issues(subject: Seq<char>, bins: Seq<BinFacts>) -> Seq<Issue>
    decreases bins.len(),
{
    if bins.len() == 0 {
        none()
    } else {
        all_bin_issues(subject, bins.drop_last()) + bin_issues(subject, bins.last())
    }
}

/// Whether one of the directories is there.
pub open spec fn any_there(bins: Seq<BinFacts>) -> bool {
    exists|i: int| 0 <= i < bins.len() && (#[trigger] bins[i]).is_dir
}

/// Reports the directories that are missing; says whether one is there.
fn report_bins(subject: &str, bins: &Vec<BinFacts>, out: &mut Vec<Finding>) -> (r: bool)
    ensures
        r == any_there(bins@),
        issues(final(out)@) == issues(old(out)@) + all_bin_issues(subject@, bins@),
{
    let ghost start = issues(out@);
    let mut there = false;
    let mut i: usize = 0;
    proof {
        assert(start + all_bin_issues(subject@, bins@.take(0)) =~= start);
    }
    while i < bins.len()
        invariant
            i <= bins.len(),
            there == exists|k: int| 0 <= k < i && (#[trigger] bins@[k]).is_dir,
            issues(out@) == start + all_bin_issues(subject@, bins@.take(i as int)),
        decreases bins.len() - i,
    {
        let ghost so_far = all_bin_issues(subject@, bins@.take(i as int));
        if bins[i].is_dir {
            there = true;
        } else {
            let message = "declared bin directory ".to_owned().concat(
                bins[i].path.as_str(),
            ).concat(" is missing");
            report(
                out,
                Severity::Warn,
                "BIN_DIR_MISSING",
                subject,
                message.as_str(),
                "create the directory by running the build task",
            );
        }
        proof {
            assert(bins@.take(i + 1).drop_last() =~= bins@.take(i as int));
            assert(issues(out@) =~= start + (so_far + bin_issues(subject@, bins@[i as int])));
            if bins@[i as int].is_dir {
                assert(exists|k: int| 0 <= k < i + 1 && (#[trigger] bins@[k]).is_dir);
            }
        }
        i = i + 1;
    }
    proof {
        assert(bins@.take(bins@.len() as int) =~= bins@);
    }
    there
}

/// The directories that a door puts first on the search path: the shims where
/// there are owned commands, and the directories of binaries.
pub open spec fn door_prefix(root: Seq<char>, owned: bool, bins: Seq<BinFacts>) -> Seq<Seq<char>> {
    let paths = bins.map_values(|b: BinFacts| b.path@);
    if owned {
        seq![path::joined(root, ".wt/shims"@)] + paths
    } else {
        paths
    }
}

/// Whether a search path begins with some directories, letter for letter.
pub open spec fn begins_with(search: Option<Seq<char>>, expected: Seq<Seq<char>>) -> bool {
    match search {
        Some(s) => expected.len() <= text::split(s, ':').len() && text::split(s, ':').take(
            expected.len() as int,
        ) == expected,
        None => expected.len() == 0,
    }
}

/// Whether the search path begins as a door would have it. `root` is that of the
/// checkout, `owned` whether it has owned commands.
pub fn path_prefix_is_assembled(
    root: &str,
    owned: bool,
    bins: &Vec<BinFacts>,
    search: &Option<String>,
) -> (r: bool)
    ensures
        r == begins_with(text::opt(*search), door_prefix(root@, owned, bins@)),
{
    let mut expected: Vec<String> = Vec::new();
    if owned {
        expected.push(path::join(root, ".wt/shims"));
    }
    let ghost want = door_prefix(root@, owned, bins@);
    let ghost lead: int = if owned {
        1
    } else {
        0
    };
    let mut i: usize = 0;
    while i < bins.len()
        invariant
            i <= bins.len(),
            lead == (if owned {
                1int
            } else {
                0int
            }),
            want == door_prefix(root@, owned, bins@),
            expected@.len() == lead + i,
            forall|k: int| 0 <= k < expected@.len() ==> (#[trigger] expected@[k])@ == want[k],
        decreases bins.len() - i,
    {
        expected.push(bins[i].path.clone());
        i = i + 1;
    }
    proof {
        assert(text::texts(expected@) =~= want);
    }
    match search {
        None => expected.len() == 0,
        Some(s) => {
            let parts = text::split_on(s.as_str(), ':');
            let ghost all = text::split(s@, ':');
            if expected.len() > parts.len() {
                return false;
            }
            let mut k: usize = 0;
            while k < expected.len()
                invariant
                    k <= expected.len() <= parts.len(),
                    all == text::texts(parts@),
                    all == text::split(s@, ':'),
                    want == text::texts(expected@),
                    want == door_prefix(root@, owned, bins@),
                    text::opt(*search) == Some(s@),
                    forall|j: int| 0 <= j < k ==> #[trigger] all[j] == want[j],
                decreases expected.len() - k,
            {
                proof {
                    assert(all[k as int] == parts@[k as int]@);
                    assert(want[k as int] == expected@[k as int]@);
                }
                if !text::same(parts[k].as_str(), expected[k].as_str()) {
                    proof {
                        if all.take(want.len() as int) == want {
                            assert(all.take(want.len() as int)[k as int] == all[k as int]);
                        }
                    }
                    return false;
                }
                k = k + 1;
            }
            proof {
                assert(all.take(want.len() as int) =~= want);
            }
            true
        },
    }
}

/// How often a text holds another, from the left and without overlap.
pub open spec fn occurrences(s: Seq<char>, part: Seq<char>) -> nat
    decreases s.len(),
{
    if part.len() == 0 || s.len() < part.len() {
        0
    } else if text::starts(s, part) {
        occurrences(s.skip(part.len() as int), part) + 1
    } else {
        occurrences(s.skip(1), part)
    }
}

fn at(a: &Vec<char>, i: usize, part: &Vec<char>) -> (r: bool)
    requires
        i + part@.len() <= a@.len(),
    ensures
        r == text::starts(a@.skip(i as int), part@),
{
    let len: usize = a.len();
    let mut k: usize = 0;
    while k < part.len()
        invariant
            k <= part@.len(),
            a@.len() == len,
            i + part@.len() <= a@.len(),
            forall|j: int| 0 <= j < k ==> a@[i + j] == #[trigger] part@[j],
        decreases part@.len() - k,
    {
        if a[i + k] != part[k] {
            proof {
                let rest = a@.skip(i as int);
                assert(rest.take(part@.len() as int)[k as int] == a@[i + k]);
            }
            return false;
        }
        k = k + 1;
    }
    proof {
        let rest = a@.skip(i as int);
        assert(rest.take(part@.len() as int) =~= part@);
    }
    true
}

fn count(s: &str, part: &str) -> (r: usize)
    requires
        part@.len() > 0,
    ensures
        r == occurrences(s@, part@),
{
    let a = text::chars_of(s);
    let p = text::chars_of(part);
    let mut i: usize = 0;
    let mut n: usize = 0;
    proof {
        assert(a@.skip(0) =~= a@);
    }
    while i <= a.len() && a.len() - i >= p.len()
        invariant
            i <= a@.len(),
            a@ == s@,
            p@ == part@,
            p@.len() > 0,
            n <= i,
            occurrences(a@, p@) == n + occurrences(a@.skip(i as int), p@),
        decreases a@.len() - i,
    {
        let ghost rest = a@.skip(i as int);
        if at(&a, i, &p) {
            proof {
                assert(rest.skip(p@.len() as int) =~= a@.skip(i + p@.len()));
            }
            n = n + 1;
            i = i + p.len();
        } else {
            proof {
                assert(rest.skip(1) =~= a@.skip(i + 1));
            }
            i = i + 1;
        }
    }
    n
}

/// The names of lock files.
pub open spec fn lockfiles() -> Seq<Seq<char>> {
    seq![
        "Cargo.lock"@,
        "package-lock.json"@,
        "pnpm-lock.yaml"@,
        "yarn.lock"@,
        "uv.lock"@,
        "poetry.lock"@,
        "go.sum"@,
    ]
}

/// Whether one of some names is among others.
pub open spec fn share(names: Seq<Seq<char>>, wanted: Seq<Seq<char>>) -> bool {
    exists|i: int| 0 <= i < names.len() && wanted.contains(#[trigger] names[i])
}

fn has_lockfile(names: &Vec<String>) -> (r: bool)
    ensures
        r == share(text::texts(names@), lockfiles()),
{
    let known = crate::proc::Args::none().and("Cargo.lock").and("package-lock.json").and(
        "pnpm-lock.yaml",
    ).and("yarn.lock").and("uv.lock").and("poetry.lock").and("go.sum").list;
    let ghost all = text::texts(names@);
    proof {
        assert(text::texts(known@) =~= lockfiles());
    }
    let mut i: usize = 0;
    while i < names.len()
        invariant
            i <= names.len(),
            all == text::texts(names@),
            text::texts(known@) == lockfiles(),
            forall|k: int| 0 <= k < i ==> !lockfiles().contains(#[trigger] all[k]),
        decreases names.len() - i,
    {
        if text::listed(&known, names[i].as_str()) {
            proof {
                assert(lockfiles().contains(all[i as int]));
            }
            return true;
        }
        i = i + 1;
    }
    false
}

/// What the adapters of a checkout give.
pub open spec fn adapter_issues(c: ConfigFacts) -> Seq<Issue> {
    match c.adapters {
        None => seq![
            issue(
                Severity::Info,
                "NO_ADAPTER"@,
                c.subject@,
                "no built-in adapter matched this checkout"@,
                "configure tasks explicitly or add a supported project manifest"@,
            ),
        ],
        Some(found) => issues(found@) + when(
            !share(text::texts(c.names@), lockfiles()),
            issue(
                Severity::Info,
                "NO_LOCKFILE"@,
                c.subject@,
                "adapter matched without a lockfile"@,
                "commit the ecosystem lockfile for reproducible sync"@,
            ),
        ),
    }
}

/// All that a configuration gives.
pub open spec fn config_issues(c: ConfigFacts) -> Seq<Issue> {
    (if c.canonical {
        issues(c.coordination@)
    } else {
        none()
    }) + all_shim_issues(c.subject@, c.shims@) + all_bin_issues(c.subject@, c.bins@) + when(
        (any_there(c.bins@) || c.shims@.len() > 0) && !begins_with(
            text::opt(c.search),
            door_prefix(c.root@, c.shims@.len() > 0, c.bins@),
        ),
        issue(
            Severity::Warn,
            "PATH_NOT_SHADOWED"@,
            c.subject@,
            "the expected door prefix is not first on PATH"@,
            "enter through a wt door or install the shell-init PATH guard"@,
        ),
    ) + when(
        !c.has_verify,
        issue(
            Severity::Info,
            "NO_VERIFY"@,
            c.subject@,
            "no verify task is declared"@,
            "declare task.verify when lifecycle verification is desired"@,
        ),
    ) + adapter_issues(c) + when(
        !text::occurs(c.exclude@, "# >>> wt managed >>>"@),
        issue(
            Severity::Warn,
            "EXCLUDE_MISSING"@,
            c.subject@,
            "managed git exclude block is missing"@,
            "run `wt sync` or re-register the checkout"@,
        ),
    ) + when(
        occurrences(c.exclude@, "# >>> wt managed >>>"@) > occurrences(
            c.exclude@,
            "# <<< wt managed <<<"@,
        ),
        issue(
            Severity::Info,
            "EXCLUDE_REPAIRED"@,
            c.subject@,
            "the managed exclude block is unclosed and will be repaired"@,
            "run `wt sync` to repair the managed block"@,
        ),
    )
}

/// Finds what is wrong with the configuration of a checkout.
pub fn config_findings(c: &ConfigFacts) -> (r: Vec<Finding>)
    ensures
        issues(r@) == config_issues(*c),
{
    let mut out: Vec<Finding> = Vec::new();
    let subject = c.subject.as_str();
    proof {
        assert(issues(out@) =~= none());
    }
    if c.canonical {
        add_all(&mut out, &c.coordination);
    }
    shim_findings(subject, &c.shims, &mut out);
    let there = report_bins(subject, &c.bins, &mut out);
    let owned = c.shims.len() > 0;
    if (there || owned) && !path_prefix_is_assembled(c.root.as_str(), owned, &c.bins, &c.search) {
        report(
            &mut out,
            Severity::Warn,
            "PATH_NOT_SHADOWED",
            subject,
            "the expected door prefix is not first on PATH",
            "enter through a wt door or install the shell-init PATH guard",
        );
    }
    if !c.has_verify {
        report(
            &mut out,
            Severity::Info,
            "NO_VERIFY",
            subject,
            "no verify task is declared",
            "declare task.verify when lifecycle verification is desired",
        );
    }
    match &c.adapters {
        None => {
            report(
                &mut out,
                Severity::Info,
                "NO_ADAPTER",
                subject,
                "no built-in adapter matched this checkout",
                "configure tasks explicitly or add a supported project manifest",
            );
        },
        Some(found) => {
            add_all(&mut out, found);
            if !has_lockfile(&c.names) {
                report(
                    &mut out,
                    Severity::Info,
                    "NO_LOCKFILE",
                    subject,
                    "adapter matched without a lockfile",
                    "commit the ecosystem lockfile for reproducible sync",
                );
            }
        },
    }
    if !text::contains(c.exclude.as_str(), "# >>> wt managed >>>") {
        report(
            &mut out,
            Severity::Warn,
            "EXCLUDE_MISSING",
            subject,
            "managed git exclude block is missing",
            "run `wt sync` or re-register the checkout",
        );
    }
    proof {
        reveal_strlit("# >>> wt managed >>>");
        reveal_strlit("# <<< wt managed <<<");
    }
    let opened: usize = count(c.exclude.as_str(), "# >>> wt managed >>>");
    let closed: usize = count(c.exclude.as_str(), "# <<< wt managed <<<");
    if opened > closed {
        report(
            &mut out,
            Severity::Info,
            "EXCLUDE_REPAIRED",
            subject,
            "the managed exclude block is unclosed and will be repaired",
            "run `wt sync` to repair the managed block",
        );
    }
    proof {
        assert(issues(out@) =~= config_issues(*c));
    }
    out
}

/// The name of the function that a shell exported as a variable.
pub open spec fn function_name(key: Seq<char>) -> Option<Seq<char>> {
    match text::after(key, "BASH_FUNC_"@) {
        Some(rest) => text::before(rest, "%%"@),
        None => None,
    }
}

/// The exported functions among variables.
pub open spec fn functions_of(entries: Seq<(String, String)>) -> Seq<Seq<char>>
    decreases entries.len(),
{
    if entries.len() == 0 {
        Seq::<Seq<char>>::empty()
    } else {
        let rest = functions_of(entries.drop_last());
        match function_name(entries.last().0@) {
            Some(name) => rest.push(name),
            None => rest,
        }
    }
}

/// The names that a shell has its own meaning for, in order and each once: those it
/// was said to have, and the functions that it exported.
pub fn shell_shadows(environment: &Assoc<String>) -> (r: Vec<String>)
    requires
        environment.wf(),
    ensures
        assoc::set_of(
            text::texts(r@),
            (if environment@.contains_key("WT_SHELL_SHADOWS"@) {
                text::lines(environment@["WT_SHELL_SHADOWS"@]@)
            } else {
                Seq::<Seq<char>>::empty()
            }) + functions_of(environment.entries@),
        ),
{
    let mut names: Vec<String> = match environment.get("WT_SHELL_SHADOWS") {
        Some(value) => text::lines_of(value.as_str()),
        None => Vec::new(),
    };
    let ghost said = text::texts(names@);
    proof {
        if !environment@.contains_key("WT_SHELL_SHADOWS"@) {
            assert(said =~= Seq::<Seq<char>>::empty());
        }
    }
    let mut i: usize = 0;
    proof {
        assert(said + functions_of(environment.entries@.take(0)) =~= said);
    }
    while i < environment.entries.len()
        invariant
            i <= environment.entries@.len(),
            text::texts(names@) == said + functions_of(environment.entries@.take(i as int)),
        decreases environment.entries@.len() - i,
    {
        let ghost so_far = functions_of(environment.entries@.take(i as int));
        let ghost prior = text::texts(names@);
        proof {
            assert(environment.entries@.take(i + 1).drop_last() =~= environment.entries@.take(
                i as int,
            ));
        }
        let key = environment.entries[i].0.as_str();
        if let Some(rest) = text::strip_prefix(key, "BASH_FUNC_") {
            if let Some(name) = text::strip_suffix(rest.as_str(), "%%") {
                let ghost n = name@;
                names.push(name);
                proof {
                    assert(text::texts(names@) =~= prior.push(n));
                    assert((said + so_far).push(n) =~= said + so_far.push(n));
                }
            }
        }
        i = i + 1;
    }
    proof {
        assert(environment.entries@.take(environment.entries@.len() as int)
            =~= environment.entries@);
    }
    assoc::sorted_set(&names)
}

// ---------------------------------------------------------------------------
// A repository and the machine
// ---------------------------------------------------------------------------

/// A worktree that git lists: its path, its canonical path where it has one, and
/// whether it is there.
#[derive(Debug)]
pub struct ListedFacts {
    pub path: String,
    pub canonical: Option<String>,
    pub is_dir: bool,
}

/// The canonical form of a path, or the path where it has none.
pub open spec fn canonical_or(path: Seq<char>, canonical: Option<Seq<char>>) -> Seq<char> {
    match canonical {
        Some(c) => c,
        None => path,
    }
}

/// The path by which a worktree is known.
pub fn canonical_observed_path(path: &str, canonical: &Option<String>) -> (r: String)
    ensures
        r@ == canonical_or(path@, text::opt(*canonical)),
{
    match canonical {
        Some(c) => c.clone(),
        None => path.to_owned(),
    }
}

/// Whether a path is one of the registered ones.
pub open spec fn is_registered(p: Seq<char>, registered: Seq<Seq<char>>) -> bool {
    exists|i: int| 0 <= i < registered.len() && path::same_path(p, #[trigger] registered[i])
}

/// What one listed worktree gives: nothing where it is registered.
pub open spec fn listed_issues(w: ListedFacts, registered: Seq<Seq<char>>) -> Seq<Issue> {
    when(
        !is_registered(canonical_or(w.path@, text::opt(w.canonical)), registered),
        if w.is_dir {
            issue(
                Severity::Warn,
                "UNMANAGED_WORKTREE"@,
                w.path@,
                "git worktree is not registered with wt"@,
                "run `wt adopt` for the checkout"@,
            )
        } else {
            issue(
                Severity::Warn,
                "STALE_GIT_WORKTREE"@,
                w.path@,
                "git retains a missing worktree record"@,
                "run `wt prune --yes`"@,
            )
        },
    )
}

/// What listed worktrees give.
pub open spec fn all_listed_issues(ws: Seq<ListedFacts>, registered: Seq<Seq<char>>) -> Seq<Issue>
    decreases ws.len(),
{
    if ws.len() == 0 {
        none()
    } else {
        all_listed_issues(ws.drop_last(), registered) + listed_issues(ws.last(), registered)
    }
}

fn registered_has(p: &str, registered: &Vec<String>) -> (r: bool)
    ensures
        r == is_registered(p@, text::texts(registered@)),
{
    let ghost all = text::texts(registered@);
    let mut i: usize = 0;
    while i < registered.len()
        invariant
            i <= registered.len(),
            all == text::texts(registered@),
            forall|k: int| 0 <= k < i ==> !path::same_path(p@, #[trigger] all[k]),
        decreases registered.len() - i,
    {
        if path::same(p, registered[i].as_str()) {
            proof {
                assert(path::same_path(p@, all[i as int]));
            }
            return true;
        }
        i = i + 1;
    }
    false
}

/// Finds the worktrees that git knows and that are not registered, by the canonical
/// paths of those that are.
pub fn git_registry_findings(listed: &Vec<ListedFacts>, registered: &Vec<String>) -> (r: Vec<Finding>)
    ensures
        issues(r@) == all_listed_issues(listed@, text::texts(registered@)),
{
    let mut out: Vec<Finding> = Vec::new();
    let ghost known = text::texts(registered@);
    let mut i: usize = 0;
    proof {
        assert(issues(out@) =~= none());
    }
    while i < listed.len()
        invariant
            i <= listed.len(),
            known == text::texts(registered@),
            issues(out@) == all_listed_issues(listed@.take(i as int), known),
        decreases listed.len() - i,
    {
        let ghost so_far = issues(out@);
        proof {
            assert(listed@.take(i + 1).drop_last() =~= listed@.take(i as int));
        }
        let w = &listed[i];
        let by = canonical_observed_path(w.path.as_str(), &w.canonical);
        if !registered_has(by.as_str(), registered) {
            if w.is_dir {
                report(
                    &mut out,
                    Severity::Warn,
                    "UNMANAGED_WORKTREE",
                    w.path.as_str(),
                    "git worktree is not registered with wt",
                    "run `wt adopt` for the checkout",
                );
            } else {
                report(
                    &mut out,
                    Severity::Warn,
                    "STALE_GIT_WORKTREE",
                    w.path.as_str(),
                    "git retains a missing worktree record",
                    "run `wt prune --yes`",
                );
            }
        }
        proof {
            assert(issues(out@) =~= so_far + listed_issues(listed@[i as int], known));
        }
        i = i + 1;
    }
    proof {
        assert(listed@.take(listed@.len() as int) =~= listed@);
    }
    out
}

/// Finds a git that is too old; `None` stands for one whose version is not known.
pub fn tooling_findings(version: Option<(u32, u32, u32)>) -> (r: Vec<Finding>)
    ensures
        issues(r@) == match version {
            Some(v) => when(
                v.0 < 2 || (v.0 == 2 && v.1 < 31),
                issue(
                    Severity::Warn,
                    "GIT_TOO_OLD"@,
                    "git"@,
                    "git "@ + text::decimal(v.0 as nat) + "."@ + text::decimal(v.1 as nat) + "."@
                        + text::decimal(v.2 as nat) + " is older than 2.31"@,
                    "upgrade git to 2.31 or newer"@,
                ),
            ),
            None => none(),
        },
{
    let mut out: Vec<Finding> = Vec::new();
    proof {
        assert(issues(out@) =~= none());
    }
    if let Some(v) = version {
        if v.0 < 2 || (v.0 == 2 && v.1 < 31) {
            let message = "git ".to_owned().concat(text::decimal_of(v.0 as u64).as_str()).concat(
                ".",
            ).concat(text::decimal_of(v.1 as u64).as_str()).concat(".").concat(
                text::decimal_of(v.2 as u64).as_str(),
            ).concat(" is older than 2.31");
            report(
                &mut out,
                Severity::Warn,
                "GIT_TOO_OLD",
                "git",
                message.as_str(),
                "upgrade git to 2.31 or newer",
            );
        }
    }
    out
}

/// What is always said of the session backend, and of activation metadata that was
/// ignored.
pub fn machine_findings(backend: &str, activation_ignored: bool) -> (r: Vec<Finding>)
    ensures
        issues(r@) == seq![
            issue(
                Severity::Info,
                "SESSION_BACKEND"@,
                "sessions"@,
                "session backend is "@ + backend@,
                "set `session.backend` in `$WT_HOME/config.toml` to change it"@,
            ),
        ] + when(
            activation_ignored,
            issue(
                Severity::Warn,
                "ACTIVATION_IGNORED"@,
                "WT_ACTIVATION"@,
                "invalid activation metadata was ignored"@,
                "remove WT_ACTIVATION or enter through a fresh wt door"@,
            ),
        ),
{
    let mut out: Vec<Finding> = Vec::new();
    proof {
        assert(issues(out@) =~= none());
    }
    let message = "session backend is ".to_owned().concat(backend);
    report(
        &mut out,
        Severity::Info,
        "SESSION_BACKEND",
        "sessions",
        message.as_str(),
        "set `session.backend` in `$WT_HOME/config.toml` to change it",
    );
    if activation_ignored {
        report(
            &mut out,
            Severity::Warn,
            "ACTIVATION_IGNORED",
            "WT_ACTIVATION",
            "invalid activation metadata was ignored",
            "remove WT_ACTIVATION or enter through a fresh wt door",
        );
    }
    out
}

/// Finds a registered repository that is not there.
pub fn repo_findings(label: &str, is_dir: bool) -> (r: Vec<Finding>)
    ensures
        issues(r@) == when(
            !is_dir,
            issue(
                Severity::Error,
                "REPO_PATH_MISSING"@,
                label@,
                "registered repository path is missing"@,
                "move the checkout back or run `wt register --label LABEL --move-to PATH`"@,
            ),
        ),
{
    let mut out: Vec<Finding> = Vec::new();
    proof {
        assert(issues(out@) =~= none());
    }
    if !is_dir {
        report(
            &mut out,
            Severity::Error,
            "REPO_PATH_MISSING",
            label,
            "registered repository path is missing",
            "move the checkout back or run `wt register --label LABEL --move-to PATH`",
        );
    }
    out
}

/// Where a machine's file is: below the home directory where its name begins with
/// a tilde and there is one.
pub fn nudge_path(file: &str, home: &Option<String>) -> (r: String)
    ensures
        r@ == match text::after(file@, "~/"@) {
            Some(rest) => match *home {
                Some(h) => path::joined(h@, rest),
                None => file@,
            },
            None => file@,
        },
{
    match text::strip_prefix(file, "~/") {
        Some(rest) => match home {
            Some(h) => path::join(h.as_str(), rest.as_str()),
            None => file.to_owned(),
        },
        None => file.to_owned(),
    }
}

/// The names of what would run on the search path, in order and each once, of what
/// its directories hold.
pub fn available_binaries(found: &Vec<String>) -> (r: Vec<String>)
    ensures
        assoc::set_of(text::texts(r@), text::texts(found@)),
{
    assoc::sorted_set(found)
}

/// A tree's phase is an issue exactly where it is one that something has to be done about,
/// and an error only where its directory was replaced.
pub proof fn which_phases_are_issues(t: TreeFacts)
    ensures
        phase_issues(t).len() == (if t.phase == DerivedPhase::Missing || t.phase == DerivedPhase::Replaced || t.phase == DerivedPhase::Incomplete || t.phase == DerivedPhase::Interrupted || t.phase == DerivedPhase::InitInterrupted || t.phase == DerivedPhase::RemoveInterrupted || t.phase == DerivedPhase::Claimed {
            1int
        } else {
            0
        }),
        phase_issues(t).len() > 0 ==> (phase_issues(t)[0].severity == Severity::Error <==> t.phase
            == DerivedPhase::Replaced),
{
}

/// A build is an issue unless it went well, a warning unless it is running.
pub proof fn which_builds_are_issues(t: TreeFacts)
    ensures
        build_issues(t).len() == (if t.build is Some && t.build->0.state@ != "ok"@ {
            1int
        } else {
            0
        }),
        build_issues(t).len() > 0 ==> (build_issues(t)[0].severity == Severity::Info
            <==> t.build->0.state@ == "running"@),
{
    reveal_strlit("ok");
    reveal_strlit("running");
    reveal_strlit("abandoned");
    reveal_strlit("failed");
    reveal_strlit("unknown");
    assert("ok"@.len() == 2 && "running"@.len() == 7 && "abandoned"@.len() == 9 && "failed"@.len()
        == 6 && "unknown"@.len() == 7);
    assert("running"@[0] == 'r' && "unknown"@[0] == 'u');
}

/// Each thing that is wrong with a resource is an issue of its own: that it is orphaned,
/// that it is not declared any more, that its probe failed, and that it is gone.
pub proof fn which_resources_are_issues(subject: Seq<char>, r: ResourceFacts)
    ensures
        resource_issues(subject, r).len() == (if r.state == ResourceState::Orphaned {
            1int
        } else {
            0
        }) + (if r.undeclared {
            1int
        } else {
            0
        })
            + (if r.last_probe == Some(ProbeFound::Failed) {
            1int
        } else {
            0
        }) + (if r.state == ResourceState::Declared && r.last_probe == Some(ProbeFound::Absent) && r.has_instance {
            1int
        } else {
            0
        }),
{
}

/// Ports that changed, that ran out, and a lock that is held are an issue each.
pub proof fn which_uses_are_issues(t: TreeFacts, ports: int)
    ensures
        use_issues(t, ports).len() == (if t.geometry.base != t.settings_base || t.geometry.stride != t.settings_stride {
            1int
        } else {
            0
        }) + (if ports >= t.geometry.stride {
            1int
        } else {
            0
        })
            + (if t.lock_held {
            1int
        } else {
            0
        }),
{
}

/// A port that is in use is told of, and warned about where neither a session nor a task
/// explains it.
pub proof fn which_ports_are_issues(t: TreeFacts, p: PortFacts)
    ensures
        port_issues(t, p).len() == (if p.bound {
            1int
        } else {
            0
        }) + (if p.bound && t.session@ != "yes"@ && !runs_task(t.holders@) {
            1int
        } else {
            0
        }),
        p.bound && port_issues(t, p).len() == 2 ==> port_issues(t, p)[0].severity == Severity::Warn,
{
}

/// Inside of a tree, each of these is an issue of its own: a cache that is off, a branch
/// that is merged and not of the canonical checkout, and an upstream that is gone.
pub proof fn which_insides_are_issues(t: TreeFacts, f: InsideFacts)
    ensures
        inside_issues(t, f).len() == f.config@.len() + f.names@.len() + (if f.untracked_cache != Some(true) {
            1int
        } else {
            0
        })
            + (if !t.canonical && f.default is Some && f.default->0.ancestor && text::opt(f.head) != text::opt(f.default->0.commit) {
            1int
        } else {
            0
        }) + (if f.upstream_gone {
            1int
        } else {
            0
        }),
{
}

/// The issues of a tree are all of these, none left out: of its phase, its verification,
/// its build, its records, its use, its ports and, where it is there and is its own, of
/// what is inside.
pub proof fn no_issue_of_a_tree_is_left_out(t: TreeFacts, ports: Seq<PortFacts>)
    ensures
        tree_issues(t, ports).len() == phase_issues(t).len() + (if t.state is Some && t.state->0.verify_pending {
            1int
        } else {
            0
        })
            + build_issues(t).len() + recorded_issues(t).len() + use_issues(t, ports.len() as int).len()
            + listener_issues(t, order::sorted(ports)).len() + (if t.dir_exists && t.phase
            != DerivedPhase::Replaced {
            inside_issues(t, t.inside->0).len() as int
        } else {
            0
        }),
        recorded_issues(t).len() == (match t.state {
            None => 0,
            Some(s) => state_issues(t, s).len() + all_resource_issues(t.subject@, s.resources@).len(),
        }),
        listener_issues(t, ports).len() == all_port_issues(t, ports).len() + (if any_bound(ports) && t.session@ != "yes"@ && !runs_task(t.holders@) {
            1int
        } else {
            0
        }),
{
}

/// A shim that is broken and one that is outranked are an issue each, and so is every
/// directory of binaries that is missing, and every worktree that is not registered.
pub proof fn which_shims_and_worktrees_are_issues(
    target: Seq<char>,
    s: ShimFacts,
    b: BinFacts,
    w: ListedFacts,
    registered: Seq<Seq<char>>,
)
    ensures
        shim_issues(target, s).len() == (if s.broken {
            1int
        } else {
            0
        }) + (if s.shadowed {
            1int
        } else {
            0
        }),
        bin_issues(target, b).len() == (if !b.is_dir {
            1int
        } else {
            0
        }),
        listed_issues(w, registered).len() == (if !is_registered(canonical_or(w.path@, text::opt(w.canonical)), registered) {
            1int
        } else {
            0
        }),
{
}

/// What is wrong with a configuration: everything is told of, and nothing else.
pub proof fn no_issue_of_a_configuration_is_left_out(c: ConfigFacts)
    ensures
        config_issues(c).len() == (if c.canonical {
            c.coordination@.len() as int
        } else {
            0
        }) + all_shim_issues(c.subject@, c.shims@).len() + all_bin_issues(c.subject@, c.bins@).len()
            + (if (any_there(c.bins@) || c.shims@.len() > 0) && !begins_with(text::opt(c.search), door_prefix(c.root@, c.shims@.len() > 0, c.bins@)) {
            1int
        } else {
            0
        }) + (if !c.has_verify {
            1int
        } else {
            0
        }) + adapter_issues(c).len()
            + (if !text::occurs(c.exclude@, "# >>> wt managed >>>"@) {
            1int
        } else {
            0
        }) + (if occurrences(c.exclude@, "# >>> wt managed >>>"@) > occurrences(c.exclude@, "# <<< wt managed <<<"@) {
            1int
        } else {
            0
        }),
        adapter_issues(c).len() == (match c.adapters {
            None => 1,
            Some(found) => found@.len() + (if !share(text::texts(c.names@), lockfiles()) {
            1int
        } else {
            0
        }),
        }),
{
}

} // verus!
