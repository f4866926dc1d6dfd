//! The summary that each command gives to people.

use vstd::prelude::*;
use vstd::string::*;

use crate::doctor::{Finding, Severity};
use crate::executor::StepReport;
use crate::human;
use crate::human::Facts;
use crate::json;
use crate::json::{Doc, Json, Kind, Shape};
use crate::list;
use crate::list::{PortReport, ResourceReport, SyncReport, TreeReport};
use crate::output::Notice;
use crate::prune;
use crate::prune::PruneItem;
use crate::register::ConfigError;
use crate::text;

verus! {

broadcast use vstd::string::group_string_axioms;

/// The facts of a summary that has none.
pub open spec fn no_facts() -> Seq<(Seq<char>, Seq<char>)> {
    Seq::<(Seq<char>, Seq<char>)>::empty()
}

/// A text, or another one in its place.
pub open spec fn or_else(value: Option<Seq<char>>, other: Seq<char>) -> Seq<char> {
    match value {
        Some(v) => v,
        None => other,
    }
}

fn or_text(value: &Option<String>, other: &str) -> (r: String)
    ensures
        r@ == or_else(text::opt(*value), other@),
{
    match value {
        Some(v) => v.clone(),
        None => other.to_owned(),
    }
}

fn number(n: usize) -> (r: String)
    ensures
        r@ == text::decimal(n as nat),
{
    text::decimal_of(n as u64)
}

/// Facts of configurations at fault, after others.
pub open spec fn with_errors(
    facts: Seq<(Seq<char>, Seq<char>)>,
    errors: Seq<ConfigError>,
) -> Seq<(Seq<char>, Seq<char>)>
    decreases errors.len(),
{
    if errors.len() == 0 {
        facts
    } else {
        with_errors(facts, errors.drop_last()).push(
            ("config"@, errors.last().path@ + ": "@ + errors.last().message@),
        )
    }
}

fn add_errors(facts: Facts, errors: &Vec<ConfigError>) -> (r: Facts)
    ensures
        r@ == with_errors(facts@, errors@),
{
    let ghost start = facts@;
    let mut out = facts;
    let mut i: usize = 0;
    while i < errors.len()
        invariant
            i <= errors.len(),
            out@ == with_errors(start, errors@.take(i as int)),
        decreases errors.len() - i,
    {
        proof {
            assert(errors@.take(i + 1).drop_last() =~= errors@.take(i as int));
        }
        let said = errors[i].path.clone().concat(": ").concat(errors[i].message.as_str());
        out = out.and("config", said.as_str());
        i = i + 1;
    }
    proof {
        assert(errors@.take(errors@.len() as int) =~= errors@);
    }
    out
}

// ---------------------------------------------------------------------------
// Registering, cloning, adopting
// ---------------------------------------------------------------------------

/// The numbers of things that are more than none, each with its name.
pub open spec fn counts_said(counts: Seq<(&'static str, usize)>) -> Seq<Seq<char>>
    decreases counts.len(),
{
    if counts.len() == 0 {
        Seq::<Seq<char>>::empty()
    } else {
        let rest = counts_said(counts.drop_last());
        if counts.last().1 > 0 {
            rest.push(text::decimal(counts.last().1 as nat) + " "@ + counts.last().0@)
        } else {
            rest
        }
    }
}

fn say_counts(counts: &Vec<(&'static str, usize)>) -> (r: Vec<String>)
    ensures
        text::texts(r@) == counts_said(counts@),
{
    let mut out: Vec<String> = Vec::new();
    let mut i: usize = 0;
    proof {
        assert(text::texts(out@) =~= Seq::<Seq<char>>::empty());
    }
    while i < counts.len()
        invariant
            i <= counts.len(),
            text::texts(out@) == counts_said(counts@.take(i as int)),
        decreases counts.len() - i,
    {
        let ghost prior = text::texts(out@);
        proof {
            assert(counts@.take(i + 1).drop_last() =~= counts@.take(i as int));
        }
        if counts[i].1 > 0 {
            let one = number(counts[i].1).concat(" ").concat(counts[i].0);
            let ghost o = one@;
            out.push(one);
            proof {
                assert(text::texts(out@) =~= prior.push(o));
            }
        }
        i = i + 1;
    }
    proof {
        assert(counts@.take(counts@.len() as int) =~= counts@);
    }
    out
}

/// What is told of a registration. The numbers are of tasks, resources, files, bins,
/// ports and copies.
#[derive(Debug)]
pub struct Registered {
    pub label: String,
    pub registered: bool,
    pub resumed: bool,
    pub path: String,
    pub phase: String,
    pub branch: Option<String>,
    pub tasks: usize,
    pub resources: usize,
    pub files: usize,
    pub bins: usize,
    pub ports: usize,
    pub copies: usize,
    pub config_errors: Vec<ConfigError>,
}

/// The numbers of what is declared, each with its name.
pub open spec fn declared_counts(d: Registered) -> Seq<(&'static str, usize)> {
    seq![
        ("tasks", d.tasks),
        ("resources", d.resources),
        ("files", d.files),
        ("bins", d.bins),
        ("ports", d.ports),
        ("copies", d.copies),
    ]
}

/// What is declared, in words.
pub open spec fn declared_said(d: Registered) -> Seq<char> {
    text::join(counts_said(declared_counts(d)), ", "@)
}

/// The headline of a registration.
pub open spec fn registered_headline(d: Registered) -> Seq<char> {
    if d.registered {
        "Registered "@ + d.label@
    } else if d.resumed {
        "Resumed registration for "@ + d.label@
    } else {
        d.label@ + " is registered"@
    }
}

/// The facts of a registration.
pub open spec fn registered_facts(d: Registered) -> Seq<(Seq<char>, Seq<char>)> {
    let first = no_facts().push(("path"@, d.path@)).push(("phase"@, d.phase@)).push(
        ("branch"@, or_else(text::opt(d.branch), "detached"@)),
    );
    with_errors(
        human::fact_if(first, declared_said(d).len() > 0, "declared"@, declared_said(d)),
        d.config_errors@,
    )
}

/// The summary of a registration.
pub fn render_register(d: &Registered) -> (r: String)
    ensures
        r@ == human::block_text(registered_headline(*d), registered_facts(*d)),
{
    let headline = if d.registered {
        "Registered ".to_owned().concat(d.label.as_str())
    } else if d.resumed {
        "Resumed registration for ".to_owned().concat(d.label.as_str())
    } else {
        d.label.clone().concat(" is registered")
    };
    let mut counts: Vec<(&'static str, usize)> = Vec::new();
    counts.push(("tasks", d.tasks));
    counts.push(("resources", d.resources));
    counts.push(("files", d.files));
    counts.push(("bins", d.bins));
    counts.push(("ports", d.ports));
    counts.push(("copies", d.copies));
    proof {
        assert(counts@ =~= declared_counts(*d));
    }
    let parts = say_counts(&counts);
    let declared = text::join_with(&parts, ", ");
    let some = !declared.as_str().is_empty();
    let branch = or_text(&d.branch, "detached");
    let facts = Facts::none().and("path", d.path.as_str()).and("phase", d.phase.as_str()).and(
        "branch",
        branch.as_str(),
    ).and_if(some, "declared", declared.as_str());
    let facts = add_errors(facts, &d.config_errors);
    human::block(headline.as_str(), &facts)
}

/// The summary of a clone.
pub fn render_clone(label: &str, cloned: bool, url: &str, p: &str, phase: &str) -> (r: String)
    ensures
        r@ == human::block_text(
            if cloned {
                "Cloned and registered "@ + label@
            } else {
                label@ + " is cloned and registered"@
            },
            no_facts().push(("url"@, url@)).push(("path"@, p@)).push(("phase"@, phase@)),
        ),
{
    let headline = if cloned {
        "Cloned and registered ".to_owned().concat(label)
    } else {
        label.to_owned().concat(" is cloned and registered")
    };
    let facts = Facts::none().and("url", url).and("path", p).and("phase", phase);
    human::block(headline.as_str(), &facts)
}

/// The summary of an end of a registration.
pub fn render_unregister(label: &str, unregistered: bool, destroyed: usize, artifacts: usize) -> (r:
    String)
    ensures
        r@ == human::block_text(
            if unregistered {
                "Unregistered "@ + label@
            } else {
                label@ + " was already unregistered"@
            },
            human::fact_if(
                human::fact_if(
                    no_facts(),
                    destroyed > 0,
                    "destroyed"@,
                    text::decimal(destroyed as nat),
                ),
                artifacts > 0,
                "artifacts"@,
                text::decimal(artifacts as nat),
            ),
        ),
{
    let headline = if unregistered {
        "Unregistered ".to_owned().concat(label)
    } else {
        label.to_owned().concat(" was already unregistered")
    };
    let facts = Facts::none().and_if(
        destroyed > 0,
        "destroyed",
        number(destroyed).as_str(),
    ).and_if(artifacts > 0, "artifacts", number(artifacts).as_str());
    human::block(headline.as_str(), &facts)
}

/// The summary of a tree that was forgotten.
pub fn render_forget(target: &str, forgotten: bool, artifacts: usize) -> (r: String)
    ensures
        r@ == human::block_text(
            if forgotten {
                "Forgot "@ + target@
            } else {
                "Did not forget "@ + target@
            },
            human::fact_if(
                no_facts(),
                artifacts > 0,
                "artifacts"@,
                text::decimal(artifacts as nat),
            ),
        ),
{
    let headline = if forgotten {
        "Forgot ".to_owned().concat(target)
    } else {
        "Did not forget ".to_owned().concat(target)
    };
    let facts = Facts::none().and_if(artifacts > 0, "artifacts", number(artifacts).as_str());
    human::block(headline.as_str(), &facts)
}

/// The summary of an adoption.
pub fn render_adopt(target: &str, adopted: bool, resumed: bool, p: &str, phase: &str) -> (r: String)
    ensures
        r@ == human::block_text(
            if adopted {
                "Adopted "@ + target@
            } else if resumed {
                "Resumed adoption of "@ + target@
            } else {
                target@ + " is already adopted"@
            },
            no_facts().push(("path"@, p@)).push(("phase"@, phase@)),
        ),
{
    let headline = if adopted {
        "Adopted ".to_owned().concat(target)
    } else if resumed {
        "Resumed adoption of ".to_owned().concat(target)
    } else {
        target.to_owned().concat(" is already adopted")
    };
    let facts = Facts::none().and("path", p).and("phase", phase);
    human::block(headline.as_str(), &facts)
}

// ---------------------------------------------------------------------------
// Steps and sync
// ---------------------------------------------------------------------------

/// Whether a step passed.
pub open spec fn passed(s: StepReport) -> bool {
    s.status@ == "ok"@
}

/// Whether a step was passed over.
pub open spec fn skipped(s: StepReport) -> bool {
    s.status@ == "skipped"@ || s.status@ == "present"@
}

/// How many steps passed.
pub open spec fn passed_in(steps: Seq<StepReport>) -> nat
    decreases steps.len(),
{
    if steps.len() == 0 {
        0
    } else {
        passed_in(steps.drop_last()) + if passed(steps.last()) {
            1nat
        } else {
            0nat
        }
    }
}

/// How many steps were passed over.
pub open spec fn skipped_in(steps: Seq<StepReport>) -> nat
    decreases steps.len(),
{
    if steps.len() == 0 {
        0
    } else {
        skipped_in(steps.drop_last()) + if skipped(steps.last()) {
            1nat
        } else {
            0nat
        }
    }
}

/// Steps in words.
pub open spec fn steps_said(steps: Seq<StepReport>) -> Seq<char> {
    if steps.len() == 0 {
        "no steps"@
    } else if skipped_in(steps) == 0 {
        text::decimal(passed_in(steps)) + "/"@ + text::decimal(steps.len()) + " passed"@
    } else {
        text::decimal(passed_in(steps)) + " passed, "@ + text::decimal(skipped_in(steps))
            + " skipped"@
    }
}

/// Steps in words.
pub fn format_steps(steps: &Vec<StepReport>) -> (r: String)
    ensures
        r@ == steps_said(steps@),
{
    if steps.len() == 0 {
        return "no steps".to_owned();
    }
    let mut ok: usize = 0;
    let mut over: usize = 0;
    let len: usize = steps.len();
    let mut i: usize = 0;
    while i < steps.len()
        invariant
            i <= steps.len(),
            len == steps.len(),
            ok == passed_in(steps@.take(i as int)),
            over == skipped_in(steps@.take(i as int)),
            ok <= i,
            over <= i,
        decreases steps.len() - i,
    {
        proof {
            assert(steps@.take(i + 1).drop_last() =~= steps@.take(i as int));
        }
        let status = steps[i].status.as_str();
        if text::same(status, "ok") {
            ok = ok + 1;
        }
        if text::same(status, "skipped") || text::same(status, "present") {
            over = over + 1;
        }
        i = i + 1;
    }
    proof {
        assert(steps@.take(steps@.len() as int) =~= steps@);
    }
    if over == 0 {
        number(ok).concat("/").concat(number(len).as_str()).concat(" passed")
    } else {
        number(ok).concat(" passed, ").concat(number(over).as_str()).concat(" skipped")
    }
}

/// How a sync stands, in words.
pub open spec fn sync_said(s: SyncReport) -> Seq<char> {
    let first = seq![s.state@];
    let second = if s.changed@.len() > 0 {
        first.push("changed: "@ + text::join(text::texts(s.changed@), ", "@))
    } else {
        first
    };
    let third = if s.drift@.len() > 0 {
        second.push("drift: "@ + text::join(text::texts(s.drift@), ", "@))
    } else {
        second
    };
    text::join(third, "; "@)
}

/// How a sync stands, in words.
pub fn format_sync(s: &SyncReport) -> (r: String)
    ensures
        r@ == sync_said(*s),
{
    let mut parts: Vec<String> = Vec::new();
    parts.push(s.state.clone());
    let ghost first = seq![s.state@];
    proof {
        assert(text::texts(parts@) =~= first);
    }
    if s.changed.len() > 0 {
        let one = "changed: ".to_owned().concat(text::join_with(&s.changed, ", ").as_str());
        let ghost o = one@;
        parts.push(one);
        proof {
            assert(text::texts(parts@) =~= first.push(o));
        }
    }
    let ghost second = text::texts(parts@);
    if s.drift.len() > 0 {
        let one = "drift: ".to_owned().concat(text::join_with(&s.drift, ", ").as_str());
        let ghost o = one@;
        parts.push(one);
        proof {
            assert(text::texts(parts@) =~= second.push(o));
        }
    }
    text::join_with(&parts, "; ")
}

/// The summary of a sync; `inputs` are the paths of its inputs.
pub fn render_sync(target: &str, ran: bool, steps: &Vec<StepReport>, inputs: &Vec<String>) -> (r:
    String)
    ensures
        r@ == human::block_text(
            if ran {
                "Synced "@ + target@
            } else {
                target@ + " is already in sync"@
            },
            human::fact_if(
                human::fact_if(no_facts(), steps@.len() > 0, "steps"@, steps_said(steps@)),
                inputs@.len() > 0,
                "inputs"@,
                text::join(text::texts(inputs@), ", "@),
            ),
        ),
{
    let headline = if ran {
        "Synced ".to_owned().concat(target)
    } else {
        target.to_owned().concat(" is already in sync")
    };
    let facts = Facts::none().and_if(
        steps.len() > 0,
        "steps",
        format_steps(steps).as_str(),
    ).and_if(inputs.len() > 0, "inputs", text::join_with(inputs, ", ").as_str());
    human::block(headline.as_str(), &facts)
}

/// What is told of a new tree. `sync` holds the steps of its sync, and `verify` whether
/// it was verified and the steps of that.
#[derive(Debug)]
pub struct Created {
    pub target: String,
    pub created: bool,
    pub resumed: bool,
    pub path: String,
    pub branch: Option<String>,
    pub sync: Option<Vec<StepReport>>,
    pub verify: Option<(bool, Vec<StepReport>)>,
}

/// The headline of a new tree.
pub open spec fn created_headline(d: Created) -> Seq<char> {
    if d.created {
        "Created "@ + d.target@
    } else if d.resumed {
        "Resumed "@ + d.target@
    } else {
        d.target@ + " is ready"@
    }
}

/// The facts of a new tree.
pub open spec fn created_facts(d: Created) -> Seq<(Seq<char>, Seq<char>)> {
    let first = no_facts().push(("path"@, d.path@)).push(
        ("branch"@, or_else(text::opt(d.branch), "detached"@)),
    ).push(
        (
            "sync"@,
            match d.sync {
                Some(steps) => steps_said(steps@),
                None => "skipped"@,
            },
        ),
    );
    match d.verify {
        Some(v) => first.push(
            (
                "verify"@,
                if v.0 {
                    "passed ("@ + steps_said(v.1@) + ")"@
                } else {
                    "failed"@
                },
            ),
        ),
        None => first,
    }
}

/// The summary of a new tree.
pub fn render_new(d: &Created) -> (r: String)
    ensures
        r@ == human::block_text(created_headline(*d), created_facts(*d)),
{
    let headline = if d.created {
        "Created ".to_owned().concat(d.target.as_str())
    } else if d.resumed {
        "Resumed ".to_owned().concat(d.target.as_str())
    } else {
        d.target.clone().concat(" is ready")
    };
    let sync = match &d.sync {
        Some(steps) => format_steps(steps),
        None => "skipped".to_owned(),
    };
    let branch = or_text(&d.branch, "detached");
    let facts = Facts::none().and("path", d.path.as_str()).and("branch", branch.as_str()).and(
        "sync",
        sync.as_str(),
    );
    let facts = match &d.verify {
        Some(v) => {
            let said = if v.0 {
                "passed (".to_owned().concat(format_steps(&v.1).as_str()).concat(")")
            } else {
                "failed".to_owned()
            };
            facts.and("verify", said.as_str())
        },
        None => facts,
    };
    human::block(headline.as_str(), &facts)
}

// ---------------------------------------------------------------------------
// How a tree stands
// ---------------------------------------------------------------------------

/// Ports in words.
pub open spec fn ports_said(ports: Seq<PortReport>) -> Seq<Seq<char>> {
    ports.map_values(|p: PortReport| p.name@ + "="@ + text::decimal(p.port as nat))
}

fn say_ports(ports: &Vec<PortReport>) -> (r: Vec<String>)
    ensures
        text::texts(r@) == ports_said(ports@),
{
    let ghost all = ports_said(ports@);
    let mut out: Vec<String> = Vec::new();
    let mut i: usize = 0;
    proof {
        assert(text::texts(out@) =~= all.take(0));
    }
    while i < ports.len()
        invariant
            i <= ports.len(),
            all == ports_said(ports@),
            text::texts(out@) == all.take(i as int),
        decreases ports.len() - i,
    {
        let ghost prior = text::texts(out@);
        let port: u16 = ports[i].port;
        out.push(
            ports[i].name.clone().concat("=").concat(text::decimal_of(port as u64).as_str()),
        );
        proof {
            assert(text::texts(out@) =~= prior.push(all[i as int]));
            assert(all.take(i + 1) =~= all.take(i as int).push(all[i as int]));
        }
        i = i + 1;
    }
    proof {
        assert(all.take(ports@.len() as int) =~= all);
    }
    out
}

/// What is kept of a tree, in words.
pub open spec fn meta_said(meta: Seq<(String, String)>) -> Seq<Seq<char>> {
    meta.map_values(|e: (String, String)| e.0@ + "="@ + e.1@)
}

fn say_meta(meta: &Vec<(String, String)>) -> (r: Vec<String>)
    ensures
        text::texts(r@) == meta_said(meta@),
{
    let ghost all = meta_said(meta@);
    let mut out: Vec<String> = Vec::new();
    let mut i: usize = 0;
    proof {
        assert(text::texts(out@) =~= all.take(0));
    }
    while i < meta.len()
        invariant
            i <= meta.len(),
            all == meta_said(meta@),
            text::texts(out@) == all.take(i as int),
        decreases meta.len() - i,
    {
        let ghost prior = text::texts(out@);
        out.push(meta[i].0.clone().concat("=").concat(meta[i].1.as_str()));
        proof {
            assert(text::texts(out@) =~= prior.push(all[i as int]));
            assert(all.take(i + 1) =~= all.take(i as int).push(all[i as int]));
        }
        i = i + 1;
    }
    proof {
        assert(all.take(meta@.len() as int) =~= all);
    }
    out
}

/// How a resource stands, in a word.
pub open spec fn state_said(r: ResourceReport) -> Seq<char> {
    match r.state {
        crate::model::ResourceState::Declared => "declared"@,
        crate::model::ResourceState::Present => "present"@,
        crate::model::ResourceState::Orphaned => "orphaned"@,
    }
}

/// The resources that someone holds, in words.
pub open spec fn held_said(resources: Seq<ResourceReport>) -> Seq<Seq<char>>
    decreases resources.len(),
{
    if resources.len() == 0 {
        Seq::<Seq<char>>::empty()
    } else {
        let rest = held_said(resources.drop_last());
        let last = resources.last();
        match text::opt(last.holder) {
            Some(holder) => rest.push(
                last.task@ + "="@ + state_said(last) + " (holder "@ + holder + ")"@,
            ),
            None => rest,
        }
    }
}

fn say_held(resources: &Vec<ResourceReport>) -> (r: Vec<String>)
    ensures
        text::texts(r@) == held_said(resources@),
{
    let mut out: Vec<String> = Vec::new();
    let mut i: usize = 0;
    proof {
        assert(text::texts(out@) =~= Seq::<Seq<char>>::empty());
    }
    while i < resources.len()
        invariant
            i <= resources.len(),
            text::texts(out@) == held_said(resources@.take(i as int)),
        decreases resources.len() - i,
    {
        let ghost prior = text::texts(out@);
        proof {
            assert(resources@.take(i + 1).drop_last() =~= resources@.take(i as int));
        }
        if let Some(holder) = &resources[i].holder {
            let one = resources[i].task.clone().concat("=").concat(
                list::state_name(resources[i].state),
            ).concat(" (holder ").concat(holder.as_str()).concat(")");
            let ghost o = one@;
            out.push(one);
            proof {
                assert(text::texts(out@) =~= prior.push(o));
            }
        }
        i = i + 1;
    }
    proof {
        assert(resources@.take(resources@.len() as int) =~= resources@);
    }
    out
}

/// What is told of a tree: its report, its build and where the log of that is, what is
/// kept of it, how many tasks it has, and configurations at fault.
#[derive(Debug)]
pub struct Standing {
    pub tree: TreeReport,
    pub build: Option<(String, String)>,
    pub meta: Vec<(String, String)>,
    pub tasks: usize,
    pub config_errors: Vec<ConfigError>,
}

/// The branch of a tree, or the commit that it is at.
pub open spec fn branch_said(t: TreeReport) -> Seq<char> {
    if t.branch is Some {
        text::opt(t.branch)->0
    } else {
        or_else(text::opt(t.detached_sha), "unknown"@)
    }
}

/// What is told of the resources of a tree: those that someone holds, or how many there
/// are.
pub open spec fn resources_said(resources: Seq<ResourceReport>) -> Seq<char> {
    if held_said(resources).len() == 0 {
        text::decimal(resources.len())
    } else {
        text::join(held_said(resources), ", "@)
    }
}

/// The facts of how a tree stands.
pub open spec fn standing_facts(d: Standing) -> Seq<(Seq<char>, Seq<char>)> {
    let t = d.tree;
    let a = no_facts().push(("path"@, t.path@)).push(("branch"@, branch_said(t))).push(
        ("sync"@, sync_said(t.sync)),
    ).push(("session"@, t.session@));
    let b = match t.dirty {
        Some(dirty) => a.push(
            (
                "changes"@,
                text::decimal(dirty.modified as nat) + " modified, "@ + text::decimal(
                    dirty.untracked as nat,
                ) + " untracked"@,
            ),
        ),
        None => a,
    };
    let c = match d.build {
        Some(build) => b.push(("build"@, build.0@ + " (log "@ + build.1@ + ")"@)),
        None => b,
    };
    let e = human::fact_if(
        c,
        d.meta@.len() > 0,
        "meta"@,
        text::join(meta_said(d.meta@), ", "@),
    );
    let f = human::fact_if(
        e,
        t.ports@.len() > 0,
        "ports"@,
        text::join(ports_said(t.ports@), ", "@),
    );
    let g = human::fact_if(f, t.resources@.len() > 0, "resources"@, resources_said(t.resources@));
    let h = human::fact_if(g, d.tasks > 0, "tasks"@, text::decimal(d.tasks as nat));
    with_errors(h, d.config_errors@)
}

/// The summary of how a tree stands.
pub fn render_status(d: &Standing) -> (r: String)
    ensures
        r@ == human::block_text(
            d.tree.target@ + " is "@ + d.tree.phase@,
            standing_facts(*d),
        ),
{
    let t = &d.tree;
    let headline = t.target.clone().concat(" is ").concat(t.phase.as_str());
    let branch = match &t.branch {
        Some(b) => b.clone(),
        None => or_text(&t.detached_sha, "unknown"),
    };
    let sync = format_sync(&t.sync);
    let facts = Facts::none().and("path", t.path.as_str()).and("branch", branch.as_str()).and(
        "sync",
        sync.as_str(),
    ).and("session", t.session.as_str());
    let facts = match &t.dirty {
        Some(dirty) => {
            let said = text::decimal_of(dirty.modified).concat(" modified, ").concat(
                text::decimal_of(dirty.untracked).as_str(),
            ).concat(" untracked");
            facts.and("changes", said.as_str())
        },
        None => facts,
    };
    let facts = match &d.build {
        Some(build) => {
            let said = build.0.clone().concat(" (log ").concat(build.1.as_str()).concat(")");
            facts.and("build", said.as_str())
        },
        None => facts,
    };
    let meta = text::join_with(&say_meta(&d.meta), ", ");
    let facts = facts.and_if(d.meta.len() > 0, "meta", meta.as_str());
    let ports = text::join_with(&say_ports(&t.ports), ", ");
    let facts = facts.and_if(t.ports.len() > 0, "ports", ports.as_str());
    let held = say_held(&t.resources);
    proof {
        assert(text::texts(held@).len() == held@.len());
    }
    let resources = if held.len() == 0 {
        number(t.resources.len())
    } else {
        text::join_with(&held, ", ")
    };
    let facts = facts.and_if(t.resources.len() > 0, "resources", resources.as_str());
    let facts = facts.and_if(d.tasks > 0, "tasks", number(d.tasks).as_str());
    let facts = add_errors(facts, &d.config_errors);
    human::block(headline.as_str(), &facts)
}

// ---------------------------------------------------------------------------
// Lists
// ---------------------------------------------------------------------------

/// A tree in a list: `holders` are the tasks of its resources that someone holds, each
/// with who does, and `meta` what is kept of it under the key that is asked for.
#[derive(Debug)]
pub struct ListRow {
    pub target: String,
    pub phase: String,
    pub branch: Option<String>,
    pub sync: String,
    pub holders: Vec<(String, String)>,
    pub meta: Option<String>,
    pub path: String,
}

/// Holders in words.
pub open spec fn holders_said(holders: Seq<(String, String)>) -> Seq<Seq<char>> {
    holders.map_values(|h: (String, String)| h.0@ + ":"@ + h.1@)
}

fn say_holders(holders: &Vec<(String, String)>) -> (r: Vec<String>)
    ensures
        text::texts(r@) == holders_said(holders@),
{
    let ghost all = holders_said(holders@);
    let mut out: Vec<String> = Vec::new();
    let mut i: usize = 0;
    proof {
        assert(text::texts(out@) =~= all.take(0));
    }
    while i < holders.len()
        invariant
            i <= holders.len(),
            all == holders_said(holders@),
            text::texts(out@) == all.take(i as int),
        decreases holders.len() - i,
    {
        let ghost prior = text::texts(out@);
        out.push(holders[i].0.clone().concat(":").concat(holders[i].1.as_str()));
        proof {
            assert(text::texts(out@) =~= prior.push(all[i as int]));
            assert(all.take(i + 1) =~= all.take(i as int).push(all[i as int]));
        }
        i = i + 1;
    }
    proof {
        assert(all.take(holders@.len() as int) =~= all);
    }
    out
}

/// Whether someone holds a resource of one of the trees.
pub open spec fn any_held(rows: Seq<ListRow>) -> bool {
    exists|i: int| 0 <= i < rows.len() && (#[trigger] rows[i]).holders@.len() > 0
}

/// The headers of a list.
pub open spec fn list_headers(held: bool, key: Option<Seq<char>>) -> Seq<Seq<char>> {
    let a = seq!["target"@, "phase"@, "branch"@, "sync"@];
    let b = if held {
        a.push("holders"@)
    } else {
        a
    };
    let c = match key {
        Some(k) => b.push(k),
        None => b,
    };
    c.push("path"@)
}

/// A tree as a row of a list.
pub open spec fn list_row(row: ListRow, held: bool, keyed: bool) -> Seq<Seq<char>> {
    let a = seq![
        row.target@,
        row.phase@,
        or_else(text::opt(row.branch), "detached"@),
        row.sync@,
    ];
    let b = if held {
        a.push(text::join(holders_said(row.holders@), ","@))
    } else {
        a
    };
    let c = if keyed {
        b.push(or_else(text::opt(row.meta), Seq::<char>::empty()))
    } else {
        b
    };
    c.push(row.path@)
}

fn row_of(row: &ListRow, held: bool, keyed: bool) -> (r: Vec<String>)
    ensures
        text::texts(r@) == list_row(*row, held, keyed),
{
    let mut out: Vec<String> = Vec::new();
    out.push(row.target.clone());
    out.push(row.phase.clone());
    out.push(or_text(&row.branch, "detached"));
    out.push(row.sync.clone());
    if held {
        out.push(text::join_with(&say_holders(&row.holders), ","));
    }
    if keyed {
        proof {
            reveal_strlit("");
            assert(""@ =~= Seq::<char>::empty());
        }
        out.push(or_text(&row.meta, ""));
    }
    out.push(row.path.clone());
    proof {
        assert(text::texts(out@) =~= list_row(*row, held, keyed));
    }
    out
}

fn headers_of(held: bool, key: &Option<String>) -> (r: Vec<String>)
    ensures
        text::texts(r@) == list_headers(held, text::opt(*key)),
{
    let mut out: Vec<String> = Vec::new();
    out.push("target".to_owned());
    out.push("phase".to_owned());
    out.push("branch".to_owned());
    out.push("sync".to_owned());
    if held {
        out.push("holders".to_owned());
    }
    if let Some(k) = key {
        out.push(k.clone());
    }
    out.push("path".to_owned());
    proof {
        assert(text::texts(out@) =~= list_headers(held, text::opt(*key)));
    }
    out
}

fn is_held(rows: &Vec<ListRow>) -> (r: bool)
    ensures
        r == any_held(rows@),
{
    let mut i: usize = 0;
    while i < rows.len()
        invariant
            i <= rows.len(),
            forall|k: int| 0 <= k < i ==> (#[trigger] rows@[k]).holders@.len() == 0,
        decreases rows.len() - i,
    {
        if rows[i].holders.len() > 0 {
            return true;
        }
        i = i + 1;
    }
    false
}

/// The list of trees; holders are a column where there are any, and so is what is kept
/// of the trees under a key that is asked for.
pub fn render_list(rows: &Vec<ListRow>, key: &Option<String>) -> (r: String)
    ensures
        r@ == human::table_text(
            "Registered trees"@,
            list_headers(any_held(rows@), text::opt(*key)),
            rows@.map_values(|row: ListRow| list_row(row, any_held(rows@), key is Some)),
        ),
{
    let held = is_held(rows);
    let keyed = key.is_some();
    let ghost all = rows@.map_values(|row: ListRow| list_row(row, held, keyed));
    let mut out: Vec<Vec<String>> = Vec::new();
    let mut i: usize = 0;
    proof {
        assert(human::rows_view(out@) =~= all.take(0));
    }
    while i < rows.len()
        invariant
            i <= rows.len(),
            all == rows@.map_values(|row: ListRow| list_row(row, held, keyed)),
            human::rows_view(out@) == all.take(i as int),
        decreases rows.len() - i,
    {
        let ghost prior = human::rows_view(out@);
        let row = row_of(&rows[i], held, keyed);
        let ghost o = text::texts(row@);
        out.push(row);
        proof {
            assert(human::rows_view(out@) =~= prior.push(o));
            assert(o == all[i as int]);
            assert(all.take(i + 1) =~= all.take(i as int).push(all[i as int]));
        }
        i = i + 1;
    }
    proof {
        assert(all.take(rows@.len() as int) =~= all);
        assert(all =~= rows@.map_values(
            |row: ListRow| list_row(row, any_held(rows@), key is Some),
        ));
    }
    human::table("Registered trees", &headers_of(held, key), &out)
}

/// A task in a list.
#[derive(Debug)]
pub struct TaskRow {
    pub id: String,
    pub scope: String,
    pub origin: String,
    pub cwd: String,
    pub needs: Vec<String>,
}

/// A task as a row of a list.
pub open spec fn task_row(t: TaskRow) -> Seq<Seq<char>> {
    seq![t.id@, t.scope@, t.origin@, t.cwd@, text::join(text::texts(t.needs@), ","@)]
}

/// The list of the tasks of a tree.
pub fn render_tasks(target: &str, tasks: &Vec<TaskRow>) -> (r: String)
    ensures
        r@ == human::table_text(
            "Effective tasks for "@ + target@,
            seq!["task"@, "scope"@, "layer"@, "cwd"@, "needs"@],
            tasks@.map_values(|t: TaskRow| task_row(t)),
        ),
{
    let ghost all = tasks@.map_values(|t: TaskRow| task_row(t));
    let mut out: Vec<Vec<String>> = Vec::new();
    let mut i: usize = 0;
    proof {
        assert(human::rows_view(out@) =~= all.take(0));
    }
    while i < tasks.len()
        invariant
            i <= tasks.len(),
            all == tasks@.map_values(|t: TaskRow| task_row(t)),
            human::rows_view(out@) == all.take(i as int),
        decreases tasks.len() - i,
    {
        let ghost prior = human::rows_view(out@);
        let mut row: Vec<String> = Vec::new();
        row.push(tasks[i].id.clone());
        row.push(tasks[i].scope.clone());
        row.push(tasks[i].origin.clone());
        row.push(tasks[i].cwd.clone());
        row.push(text::join_with(&tasks[i].needs, ","));
        let ghost o = text::texts(row@);
        out.push(row);
        proof {
            assert(human::rows_view(out@) =~= prior.push(o));
            assert(o =~= all[i as int]);
            assert(all.take(i + 1) =~= all.take(i as int).push(all[i as int]));
        }
        i = i + 1;
    }
    proof {
        assert(all.take(tasks@.len() as int) =~= all);
    }
    let mut headers: Vec<String> = Vec::new();
    headers.push("task".to_owned());
    headers.push("scope".to_owned());
    headers.push("layer".to_owned());
    headers.push("cwd".to_owned());
    headers.push("needs".to_owned());
    proof {
        assert(text::texts(headers@) =~= seq!["task"@, "scope"@, "layer"@, "cwd"@, "needs"@]);
    }
    let headline = "Effective tasks for ".to_owned().concat(target);
    human::table(headline.as_str(), &headers, &out)
}

fn push_row(rows: &mut Vec<Vec<String>>, row: Vec<String>)
    ensures
        human::rows_view(final(rows)@) == human::rows_view(old(rows)@).push(text::texts(row@)),
{
    let ghost before = human::rows_view(rows@);
    let ghost o = text::texts(row@);
    rows.push(row);
    proof {
        assert(human::rows_view(rows@) =~= before.push(o));
    }
}

fn four(a: &str, b: &str, c: &str, d: &str) -> (r: Vec<String>)
    ensures
        text::texts(r@) == seq![a@, b@, c@, d@],
{
    let mut row: Vec<String> = Vec::new();
    row.push(a.to_owned());
    row.push(b.to_owned());
    row.push(c.to_owned());
    row.push(d.to_owned());
    proof {
        assert(text::texts(row@) =~= seq![a@, b@, c@, d@]);
    }
    row
}

// ---------------------------------------------------------------------------
// Sessions
// ---------------------------------------------------------------------------

/// What became of a session.
#[derive(Debug)]
pub enum SessionSaid {
    Open { target: String, created: bool, existing: bool },
    Closed { target: String, closed: bool },
    Failed { target: String, code: String },
}

/// The target of a session, and what became of it in words.
pub open spec fn session_said(s: SessionSaid) -> (Seq<char>, Seq<char>) {
    match s {
        SessionSaid::Open { target, created, existing } => (
            target@,
            if created {
                "created"@
            } else if existing {
                "already open"@
            } else {
                "opened"@
            },
        ),
        SessionSaid::Closed { target, closed } => (
            target@,
            if closed {
                "closed"@
            } else {
                "already closed"@
            },
        ),
        SessionSaid::Failed { target, code } => (target@, "failed ("@ + code@ + ")"@),
    }
}

fn say_session(s: &SessionSaid) -> (r: (String, String))
    ensures
        (r.0@, r.1@) == session_said(*s),
{
    match s {
        SessionSaid::Open { target, created, existing } => (
            target.clone(),
            if *created {
                "created".to_owned()
            } else if *existing {
                "already open".to_owned()
            } else {
                "opened".to_owned()
            },
        ),
        SessionSaid::Closed { target, closed } => (
            target.clone(),
            if *closed {
                "closed".to_owned()
            } else {
                "already closed".to_owned()
            },
        ),
        SessionSaid::Failed { target, code } => (
            target.clone(),
            "failed (".to_owned().concat(code.as_str()).concat(")"),
        ),
    }
}

/// The facts of several sessions.
pub open spec fn session_facts(sessions: Seq<SessionSaid>) -> Seq<(Seq<char>, Seq<char>)> {
    sessions.map_values(
        |s: SessionSaid| ("session"@, session_said(s).0 + ": "@ + session_said(s).1),
    )
}

/// The summary of what became of sessions.
pub fn render_sessions(sessions: &Vec<SessionSaid>) -> (r: String)
    ensures
        r@ == if sessions@.len() == 0 {
            human::block_text("No sessions changed"@, no_facts())
        } else if sessions@.len() == 1 {
            human::block_text(
                "Session "@ + session_said(sessions@[0]).1 + " for "@ + session_said(
                    sessions@[0],
                ).0,
                no_facts(),
            )
        } else {
            human::block_text(
                "Updated "@ + text::decimal(sessions@.len()) + " sessions"@,
                session_facts(sessions@),
            )
        },
{
    if sessions.len() == 0 {
        return human::block("No sessions changed", &Facts::none());
    }
    if sessions.len() == 1 {
        let (target, state) = say_session(&sessions[0]);
        let headline = "Session ".to_owned().concat(state.as_str()).concat(" for ").concat(
            target.as_str(),
        );
        return human::block(headline.as_str(), &Facts::none());
    }
    let headline = "Updated ".to_owned().concat(number(sessions.len()).as_str()).concat(
        " sessions",
    );
    let ghost all = session_facts(sessions@);
    let mut facts = Facts::none();
    let mut i: usize = 0;
    proof {
        assert(facts@ =~= all.take(0));
    }
    while i < sessions.len()
        invariant
            i <= sessions.len(),
            all == session_facts(sessions@),
            facts@ == all.take(i as int),
        decreases sessions.len() - i,
    {
        let (target, state) = say_session(&sessions[i]);
        let said = target.concat(": ").concat(state.as_str());
        facts = facts.and("session", said.as_str());
        proof {
            assert(all.take(i + 1) =~= all.take(i as int).push(all[i as int]));
        }
        i = i + 1;
    }
    proof {
        assert(all.take(sessions@.len() as int) =~= all);
    }
    human::block(headline.as_str(), &facts)
}

// ---------------------------------------------------------------------------
// Removing and pruning
// ---------------------------------------------------------------------------

/// What is told of a removal.
#[derive(Debug)]
pub struct Removed {
    pub target: String,
    pub removed: bool,
    pub destroyed: usize,
    pub orphans_kept: Vec<String>,
    pub branch_deleted: bool,
    pub branch_kept: Option<String>,
    pub session_closed: bool,
    pub cache_deleted: Option<String>,
}

/// Whether a notice tells why nothing was removed.
pub open spec fn tells_why(n: Notice) -> bool {
    n.code@ == "ALREADY_REMOVED"@ || n.code@ == "REMOVE_DECLINED"@
}

/// The first notice that tells why nothing was removed.
pub open spec fn why_not(notices: Seq<Notice>) -> Option<Seq<char>>
    decreases notices.len(),
{
    if notices.len() == 0 {
        None
    } else if tells_why(notices[0]) {
        Some(notices[0].message@)
    } else {
        why_not(notices.skip(1))
    }
}

fn find_why(notices: &Vec<Notice>) -> (r: Option<String>)
    ensures
        text::opt(r) == why_not(notices@),
{
    let mut i: usize = 0;
    proof {
        assert(notices@.skip(0) =~= notices@);
    }
    while i < notices.len()
        invariant
            i <= notices.len(),
            why_not(notices@) == why_not(notices@.skip(i as int)),
        decreases notices.len() - i,
    {
        proof {
            assert(notices@.skip(i as int)[0] == notices@[i as int]);
            assert(notices@.skip(i as int).skip(1) =~= notices@.skip(i + 1));
        }
        let code = notices[i].code.as_str();
        if text::same(code, "ALREADY_REMOVED") || text::same(code, "REMOVE_DECLINED") {
            return Some(notices[i].message.clone());
        }
        i = i + 1;
    }
    None
}

/// The facts of a removal.
pub open spec fn removed_facts(d: Removed) -> Seq<(Seq<char>, Seq<char>)> {
    let a = human::fact_if(
        no_facts(),
        d.destroyed > 0,
        "destroyed"@,
        text::decimal(d.destroyed as nat),
    );
    let b = human::fact_if(
        a,
        d.orphans_kept@.len() > 0,
        "orphans"@,
        text::join(text::texts(d.orphans_kept@), ", "@),
    );
    let c = human::fact_if(b, d.branch_deleted, "branch"@, "deleted"@);
    let e = match text::opt(d.branch_kept) {
        Some(branch) => c.push(("kept"@, "branch "@ + branch)),
        None => c,
    };
    let f = human::fact_if(e, d.session_closed, "session"@, "closed"@);
    match text::opt(d.cache_deleted) {
        Some(cache) => f.push(("cache"@, "deleted "@ + cache)),
        None => f,
    }
}

/// The summary of a removal, of the notices that go with it.
pub fn render_remove(d: &Removed, notices: &Vec<Notice>) -> (r: String)
    ensures
        r@ == human::block_text(
            if d.removed {
                "Removed "@ + d.target@
            } else {
                or_else(
                    why_not(notices@),
                    "Removal of "@ + d.target@ + " did not proceed"@,
                )
            },
            removed_facts(*d),
        ),
{
    let headline = if d.removed {
        "Removed ".to_owned().concat(d.target.as_str())
    } else {
        match find_why(notices) {
            Some(why) => why,
            None => "Removal of ".to_owned().concat(d.target.as_str()).concat(
                " did not proceed",
            ),
        }
    };
    let orphans = text::join_with(&d.orphans_kept, ", ");
    let facts = Facts::none().and_if(
        d.destroyed > 0,
        "destroyed",
        number(d.destroyed).as_str(),
    ).and_if(d.orphans_kept.len() > 0, "orphans", orphans.as_str()).and_if(
        d.branch_deleted,
        "branch",
        "deleted",
    );
    let facts = match &d.branch_kept {
        Some(branch) => {
            let said = "branch ".to_owned().concat(branch.as_str());
            facts.and("kept", said.as_str())
        },
        None => facts,
    };
    let facts = facts.and_if(d.session_closed, "session", "closed");
    let facts = match &d.cache_deleted {
        Some(cache) => {
            let said = "deleted ".to_owned().concat(cache.as_str());
            facts.and("cache", said.as_str())
        },
        None => facts,
    };
    human::block(headline.as_str(), &facts)
}

/// An item of a plan in words.
pub open spec fn item_said(i: PruneItem) -> Seq<char> {
    i.target@ + ": "@ + prune::action_text(i.action) + (if i.reasons@.len() == 0 {
        Seq::<char>::empty()
    } else {
        " ("@ + text::join(text::texts(i.reasons@), ", "@) + ")"@
    })
}

fn say_item(i: &PruneItem) -> (r: String)
    ensures
        r@ == item_said(*i),
{
    let said = i.target.clone().concat(": ").concat(prune::action_name(i.action));
    if i.reasons.len() == 0 {
        proof {
            assert(said@ + Seq::<char>::empty() =~= said@);
        }
        said
    } else {
        let why = " (".to_owned().concat(text::join_with(&i.reasons, ", ").as_str()).concat(")");
        said.concat(why.as_str())
    }
}

/// The summary of a plan to prune.
pub fn render_prune(items: &Vec<PruneItem>, applied: bool) -> (r: String)
    ensures
        r@ == human::block_text(
            if applied {
                "Applied prune plan to "@ + text::decimal(items@.len()) + " items"@
            } else {
                "Prune plan has "@ + text::decimal(items@.len()) + " items"@
            },
            items@.map_values(|i: PruneItem| ("item"@, item_said(i))),
        ),
{
    let lead = if applied {
        "Applied prune plan to "
    } else {
        "Prune plan has "
    };
    let headline = lead.to_owned().concat(number(items.len()).as_str()).concat(" items");
    let ghost all = items@.map_values(|i: PruneItem| ("item"@, item_said(i)));
    let mut facts = Facts::none();
    let mut k: usize = 0;
    proof {
        assert(facts@ =~= all.take(0));
    }
    while k < items.len()
        invariant
            k <= items.len(),
            all == items@.map_values(|i: PruneItem| ("item"@, item_said(i))),
            facts@ == all.take(k as int),
        decreases items.len() - k,
    {
        let said = say_item(&items[k]);
        facts = facts.and("item", said.as_str());
        proof {
            assert(all.take(k + 1) =~= all.take(k as int).push(all[k as int]));
        }
        k = k + 1;
    }
    proof {
        assert(all.take(items@.len() as int) =~= all);
    }
    human::block(headline.as_str(), &facts)
}

/// What is told of a resource that was destroyed or refreshed.
#[derive(Debug)]
pub struct Acted {
    pub target: String,
    pub scope: String,
    pub task: String,
    pub before: String,
    pub after: String,
}

/// The summary of a resource that was destroyed or refreshed, or of one that was not.
pub fn render_resource(headline: &str, d: &Option<Acted>) -> (r: String)
    ensures
        r@ == match *d {
            Some(a) => human::block_text(
                headline@ + ": "@ + a.task@,
                no_facts().push(("target"@, a.target@)).push(("scope"@, a.scope@)).push(
                    ("state"@, a.before@ + " -> "@ + a.after@),
                ),
            ),
            None => human::block_text("Resource unchanged"@, no_facts()),
        },
{
    match d {
        Some(a) => {
            let headline = headline.to_owned().concat(": ").concat(a.task.as_str());
            let state = a.before.clone().concat(" -> ").concat(a.after.as_str());
            let facts = Facts::none().and("target", a.target.as_str()).and(
                "scope",
                a.scope.as_str(),
            ).and("state", state.as_str());
            human::block(headline.as_str(), &facts)
        },
        None => human::block("Resource unchanged", &Facts::none()),
    }
}

// ---------------------------------------------------------------------------
// Checkups
// ---------------------------------------------------------------------------

/// How bad something is, in a word.
pub open spec fn severity_said(s: Severity) -> Seq<char> {
    match s {
        Severity::Error => "error"@,
        Severity::Warn => "warning"@,
        Severity::Info => "note"@,
    }
}

fn say_severity(s: Severity) -> (r: &'static str)
    ensures
        r@ == severity_said(s),
{
    match s {
        Severity::Error => "error",
        Severity::Warn => "warning",
        Severity::Info => "note",
    }
}

/// The facts of what a checkup found: each with what to do next.
pub open spec fn finding_facts(findings: Seq<Finding>) -> Seq<(Seq<char>, Seq<char>)>
    decreases findings.len(),
{
    if findings.len() == 0 {
        no_facts()
    } else {
        let f = findings.last();
        finding_facts(findings.drop_last()).push(
            (severity_said(f.severity), f.code@ + " "@ + f.subject@ + " - "@ + f.message@),
        ).push(("next"@, f.remedy@))
    }
}

/// A number with a word for as many.
pub open spec fn count_said(n: usize, one: Seq<char>, several: Seq<char>) -> Seq<char> {
    text::decimal(n as nat) + " "@ + (if n == 1 {
        one
    } else {
        several
    })
}

fn say_count(n: usize, one: &str, several: &str) -> (r: String)
    ensures
        r@ == count_said(n, one@, several@),
{
    number(n).concat(" ").concat(human::plural(n, one, several))
}

/// The summary of a checkup.
pub fn render_doctor(findings: &Vec<Finding>, errors: usize, warnings: usize, notes: usize) -> (r:
    String)
    ensures
        r@ == human::block_text(
            if findings@.len() == 0 {
                "Doctor found no problems"@
            } else {
                "Doctor found "@ + count_said(errors, "error"@, "errors"@) + ", "@ + count_said(
                    warnings,
                    "warning"@,
                    "warnings"@,
                ) + ", "@ + count_said(notes, "note"@, "notes"@)
            },
            finding_facts(findings@),
        ),
{
    let headline = if findings.len() == 0 {
        "Doctor found no problems".to_owned()
    } else {
        "Doctor found ".to_owned().concat(
            say_count(errors, "error", "errors").as_str(),
        ).concat(", ").concat(say_count(warnings, "warning", "warnings").as_str()).concat(
            ", ",
        ).concat(say_count(notes, "note", "notes").as_str())
    };
    let mut facts = Facts::none();
    let mut i: usize = 0;
    while i < findings.len()
        invariant
            i <= findings.len(),
            facts@ == finding_facts(findings@.take(i as int)),
        decreases findings.len() - i,
    {
        proof {
            assert(findings@.take(i + 1).drop_last() =~= findings@.take(i as int));
        }
        let f = &findings[i];
        let said = f.code.clone().concat(" ").concat(f.subject.as_str()).concat(" - ").concat(
            f.message.as_str(),
        );
        facts = facts.and(say_severity(f.severity), said.as_str()).and(
            "next",
            f.remedy.as_str(),
        );
        i = i + 1;
    }
    proof {
        assert(findings@.take(findings@.len() as int) =~= findings@);
    }
    human::block(headline.as_str(), &facts)
}

// ---------------------------------------------------------------------------
// Configuration
// ---------------------------------------------------------------------------

/// The keys of an object.
pub open spec fn keys_of(members: Seq<(Seq<char>, Doc)>) -> Seq<Seq<char>> {
    members.map_values(|m: (Seq<char>, Doc)| m.0)
}

fn keys(members: &Vec<(String, Json)>) -> (r: Vec<String>)
    ensures
        text::texts(r@) == keys_of(json::members_of(members@)),
{
    let ghost all = keys_of(json::members_of(members@));
    let mut out: Vec<String> = Vec::new();
    let mut i: usize = 0;
    proof {
        assert(text::texts(out@) =~= all.take(0));
    }
    while i < members.len()
        invariant
            i <= members.len(),
            all == keys_of(json::members_of(members@)),
            text::texts(out@) == all.take(i as int),
        decreases members.len() - i,
    {
        let ghost prior = text::texts(out@);
        out.push(members[i].0.clone());
        proof {
            assert(text::texts(out@) =~= prior.push(all[i as int]));
            assert(all.take(i + 1) =~= all.take(i as int).push(all[i as int]));
        }
        i = i + 1;
    }
    proof {
        assert(all.take(members@.len() as int) =~= all);
    }
    out
}

/// A value inside a list: a text as it is, and anything else in its compact form.
pub open spec fn inner_said(d: Doc) -> Seq<char> {
    match d.shape {
        Shape::Text(s) => s,
        _ => d.compact,
    }
}

fn say_inner(list: &Vec<Json>) -> (r: Vec<String>)
    ensures
        text::texts(r@) == json::docs(list@).map_values(|d: Doc| inner_said(d)),
{
    let ghost all = json::docs(list@).map_values(|d: Doc| inner_said(d));
    let mut out: Vec<String> = Vec::new();
    let mut i: usize = 0;
    proof {
        assert(text::texts(out@) =~= all.take(0));
    }
    while i < list.len()
        invariant
            i <= list.len(),
            all == json::docs(list@).map_values(|d: Doc| inner_said(d)),
            text::texts(out@) == all.take(i as int),
        decreases list.len() - i,
    {
        let ghost prior = text::texts(out@);
        proof {
            json::what_a_value_holds(list@[i as int]);
        }
        let one = match &list[i].kind {
            Kind::Text(s) => s.clone(),
            _ => list[i].compact.clone(),
        };
        out.push(one);
        proof {
            assert(text::texts(out@) =~= prior.push(all[i as int]));
            assert(all.take(i + 1) =~= all.take(i as int).push(all[i as int]));
        }
        i = i + 1;
    }
    proof {
        assert(all.take(list@.len() as int) =~= all);
    }
    out
}

/// Several texts, or a dash where there are none.
pub open spec fn or_dash(list: Seq<Seq<char>>) -> Seq<char> {
    if list.len() == 0 {
        "-"@
    } else {
        text::join(list, ", "@)
    }
}

fn dashed(list: &Vec<String>) -> (r: String)
    ensures
        r@ == or_dash(text::texts(list@)),
{
    proof {
        assert(text::texts(list@).len() == list@.len());
    }
    if list.len() == 0 {
        "-".to_owned()
    } else {
        text::join_with(list, ", ")
    }
}

/// A value in few words: what a list holds, and the keys of an object.
pub open spec fn value_said(d: Doc) -> Seq<char> {
    match d.shape {
        Shape::Null => "null"@,
        Shape::Bool(b) => if b {
            "true"@
        } else {
            "false"@
        },
        Shape::Number(_) => d.compact,
        Shape::Text(s) => s,
        Shape::List(list) => or_dash(list.map_values(|i: Doc| inner_said(i))),
        Shape::Object(members) => or_dash(keys_of(members)),
    }
}

/// A value in few words.
pub fn summarize_value(j: &Json) -> (r: String)
    ensures
        r@ == value_said(j@),
{
    proof {
        json::what_a_value_holds(*j);
    }
    match &j.kind {
        Kind::Null => "null".to_owned(),
        Kind::Bool(b) => if *b {
            "true".to_owned()
        } else {
            "false".to_owned()
        },
        Kind::Number { .. } => j.compact.clone(),
        Kind::Text(s) => s.clone(),
        Kind::List(list) => dashed(&say_inner(list)),
        Kind::Object(members) => dashed(&keys(members)),
    }
}

/// A setting in few words: of the environment only the keys.
pub open spec fn config_said(key: Seq<char>, d: Doc) -> Seq<char> {
    if key == "env"@ {
        match d.shape {
            Shape::Object(members) => or_dash(keys_of(members)),
            _ => Seq::<char>::empty(),
        }
    } else {
        value_said(d)
    }
}

/// A setting in few words.
pub fn summarize_config(key: &str, j: &Json) -> (r: String)
    ensures
        r@ == config_said(key@, j@),
{
    proof {
        json::what_a_value_holds(*j);
    }
    if text::same(key, "env") {
        match &j.kind {
            Kind::Object(members) => dashed(&keys(members)),
            _ => String::new(),
        }
    } else {
        summarize_value(j)
    }
}

/// The values of the environment are never shown: what is said of them does not depend
/// on them.
pub proof fn environment_values_stay_out(a: Doc, b: Doc)
    requires
        a.shape is Object,
        b.shape is Object,
        keys_of(a.shape->Object_0) == keys_of(b.shape->Object_0),
    ensures
        config_said("env"@, a) == config_said("env"@, b),
{
}

/// A setting: where it is from, and what it is.
#[derive(Debug)]
pub struct ConfigEntry {
    pub key: String,
    pub scope: String,
    pub layer: String,
    pub value: Json,
}

/// The rows of the members of an object.
pub open spec fn member_rows(members: Seq<(Seq<char>, Doc)>, e: ConfigEntry) -> Seq<
    Seq<Seq<char>>,
> {
    members.map_values(
        |m: (Seq<char>, Doc)| seq![m.0, e.scope@, e.layer@, config_said(m.0, m.1)],
    )
}

/// The rows of a setting: one for each member of an object, and else one.
pub open spec fn entry_rows(e: ConfigEntry) -> Seq<Seq<Seq<char>>> {
    match e.value@.shape {
        Shape::Object(members) => member_rows(members, e),
        _ => seq![seq![e.key@, e.scope@, e.layer@, value_said(e.value@)]],
    }
}

/// The rows of settings.
pub open spec fn config_rows(entries: Seq<ConfigEntry>) -> Seq<Seq<Seq<char>>>
    decreases entries.len(),
{
    if entries.len() == 0 {
        Seq::<Seq<Seq<char>>>::empty()
    } else {
        config_rows(entries.drop_last()) + entry_rows(entries.last())
    }
}

fn add_entry(rows: &mut Vec<Vec<String>>, e: &ConfigEntry)
    ensures
        human::rows_view(final(rows)@) == human::rows_view(old(rows)@) + entry_rows(*e),
{
    let ghost start = human::rows_view(rows@);
    proof {
        json::what_a_value_holds(e.value);
    }
    match &e.value.kind {
        Kind::Object(members) => {
            let ghost all = member_rows(json::members_of(members@), *e);
            let mut i: usize = 0;
            proof {
                assert(start + all.take(0) =~= start);
            }
            while i < members.len()
                invariant
                    i <= members.len(),
                    all == member_rows(json::members_of(members@), *e),
                    human::rows_view(rows@) == start + all.take(i as int),
                decreases members.len() - i,
            {
                let said = summarize_config(members[i].0.as_str(), &members[i].1);
                let row = four(
                    members[i].0.as_str(),
                    e.scope.as_str(),
                    e.layer.as_str(),
                    said.as_str(),
                );
                push_row(rows, row);
                proof {
                    assert(start + all.take(i + 1) =~= (start + all.take(i as int)).push(
                        all[i as int],
                    ));
                }
                i = i + 1;
            }
            proof {
                assert(all.take(members@.len() as int) =~= all);
            }
        },
        _ => {
            let said = summarize_value(&e.value);
            let row = four(e.key.as_str(), e.scope.as_str(), e.layer.as_str(), said.as_str());
            let ghost o = text::texts(row@);
            push_row(rows, row);
            proof {
                assert(start.push(o) =~= start + seq![o]);
            }
        },
    }
}

/// The list of the settings of a tree.
pub fn render_config(target: &str, entries: &Vec<ConfigEntry>) -> (r: String)
    ensures
        r@ == human::table_text(
            "Effective config for "@ + target@,
            seq!["key"@, "scope"@, "layer"@, "value"@],
            config_rows(entries@),
        ),
{
    let mut rows: Vec<Vec<String>> = Vec::new();
    let mut i: usize = 0;
    proof {
        assert(human::rows_view(rows@) =~= Seq::<Seq<Seq<char>>>::empty());
    }
    while i < entries.len()
        invariant
            i <= entries.len(),
            human::rows_view(rows@) == config_rows(entries@.take(i as int)),
        decreases entries.len() - i,
    {
        proof {
            assert(entries@.take(i + 1).drop_last() =~= entries@.take(i as int));
        }
        add_entry(&mut rows, &entries[i]);
        i = i + 1;
    }
    proof {
        assert(entries@.take(entries@.len() as int) =~= entries@);
    }
    let headline = "Effective config for ".to_owned().concat(target);
    human::table(headline.as_str(), &four("key", "scope", "layer", "value"), &rows)
}

// ---------------------------------------------------------------------------
// Locks
// ---------------------------------------------------------------------------

/// A lock in a list. One with slots tells how many are held, and by whom: the process
/// and what it does, where that is known.
#[derive(Debug)]
pub struct LockRow {
    pub level: u8,
    pub name: String,
    pub held: bool,
    pub slots: Option<u32>,
    pub held_slots: Option<u32>,
    pub holders: Vec<(u32, Option<(u32, String)>)>,
    pub holder: Option<(u32, String)>,
    pub path: String,
}

/// A process and what it does.
pub open spec fn process_said(p: (u32, String)) -> Seq<char> {
    text::decimal(p.0 as nat) + " "@ + p.1@
}

fn say_process(p: &(u32, String)) -> (r: String)
    ensures
        r@ == process_said(*p),
{
    let pid: u32 = p.0;
    text::decimal_of(pid as u64).concat(" ").concat(p.1.as_str())
}

/// A slot and who holds it.
pub open spec fn slot_said(h: (u32, Option<(u32, String)>)) -> Seq<char> {
    text::decimal(h.0 as nat) + ":"@ + (match h.1 {
        Some(p) => process_said(p),
        None => "unknown"@,
    })
}

fn say_slots(holders: &Vec<(u32, Option<(u32, String)>)>) -> (r: Vec<String>)
    ensures
        text::texts(r@) == holders@.map_values(|h: (u32, Option<(u32, String)>)| slot_said(h)),
{
    let ghost all = holders@.map_values(|h: (u32, Option<(u32, String)>)| slot_said(h));
    let mut out: Vec<String> = Vec::new();
    let mut i: usize = 0;
    proof {
        assert(text::texts(out@) =~= all.take(0));
    }
    while i < holders.len()
        invariant
            i <= holders.len(),
            all == holders@.map_values(|h: (u32, Option<(u32, String)>)| slot_said(h)),
            text::texts(out@) == all.take(i as int),
        decreases holders.len() - i,
    {
        let ghost prior = text::texts(out@);
        let slot: u32 = holders[i].0;
        let who = match &holders[i].1 {
            Some(p) => say_process(p),
            None => "unknown".to_owned(),
        };
        out.push(text::decimal_of(slot as u64).concat(":").concat(who.as_str()));
        proof {
            assert(text::texts(out@) =~= prior.push(all[i as int]));
            assert(all.take(i + 1) =~= all.take(i as int).push(all[i as int]));
        }
        i = i + 1;
    }
    proof {
        assert(all.take(holders@.len() as int) =~= all);
    }
    out
}

/// How a lock stands, in words.
pub open spec fn lock_state(l: LockRow) -> Seq<char> {
    match l.slots {
        Some(slots) => "held "@ + text::decimal(
            match l.held_slots {
                Some(n) => n as nat,
                None => 0,
            },
        ) + "/"@ + text::decimal(slots as nat),
        None => if l.held {
            "held"@
        } else {
            "free"@
        },
    }
}

/// Who holds a lock, in words.
pub open spec fn lock_holder(l: LockRow) -> Seq<char> {
    if l.slots is Some {
        text::join(
            l.holders@.map_values(|h: (u32, Option<(u32, String)>)| slot_said(h)),
            "; "@,
        )
    } else if l.held && l.holder is Some {
        process_said(l.holder->0)
    } else {
        Seq::<char>::empty()
    }
}

/// A lock as a row of a list.
pub open spec fn lock_row(l: LockRow) -> Seq<Seq<char>> {
    seq![text::decimal(l.level as nat), l.name@, lock_state(l), lock_holder(l), l.path@]
}

fn row_of_lock(l: &LockRow) -> (r: Vec<String>)
    ensures
        text::texts(r@) == lock_row(*l),
{
    let state = match l.slots {
        Some(slots) => {
            let n: u32 = match l.held_slots {
                Some(n) => n,
                None => 0,
            };
            "held ".to_owned().concat(text::decimal_of(n as u64).as_str()).concat("/").concat(
                text::decimal_of(slots as u64).as_str(),
            )
        },
        None => if l.held {
            "held".to_owned()
        } else {
            "free".to_owned()
        },
    };
    let who = if l.slots.is_some() {
        text::join_with(&say_slots(&l.holders), "; ")
    } else if l.held {
        match &l.holder {
            Some(p) => say_process(p),
            None => String::new(),
        }
    } else {
        String::new()
    };
    let level: u8 = l.level;
    let mut row: Vec<String> = Vec::new();
    row.push(text::decimal_of(level as u64));
    row.push(l.name.clone());
    row.push(state);
    row.push(who);
    row.push(l.path.clone());
    proof {
        assert(text::texts(row@) =~= lock_row(*l));
    }
    row
}

/// The list of locks.
pub fn render_locks(locks: &Vec<LockRow>) -> (r: String)
    ensures
        r@ == human::table_text(
            "Coordination locks"@,
            seq!["level"@, "name"@, "state"@, "holder"@, "path"@],
            locks@.map_values(|l: LockRow| lock_row(l)),
        ),
{
    let ghost all = locks@.map_values(|l: LockRow| lock_row(l));
    let mut rows: Vec<Vec<String>> = Vec::new();
    let mut i: usize = 0;
    proof {
        assert(human::rows_view(rows@) =~= all.take(0));
    }
    while i < locks.len()
        invariant
            i <= locks.len(),
            all == locks@.map_values(|l: LockRow| lock_row(l)),
            human::rows_view(rows@) == all.take(i as int),
        decreases locks.len() - i,
    {
        push_row(&mut rows, row_of_lock(&locks[i]));
        proof {
            assert(all.take(i + 1) =~= all.take(i as int).push(all[i as int]));
        }
        i = i + 1;
    }
    proof {
        assert(all.take(locks@.len() as int) =~= all);
    }
    let mut headers = four("level", "name", "state", "holder");
    let ghost four_of = text::texts(headers@);
    headers.push("path".to_owned());
    proof {
        assert(text::texts(headers@) =~= four_of.push("path"@));
        assert(text::texts(headers@) =~= seq![
            "level"@,
            "name"@,
            "state"@,
            "holder"@,
            "path"@,
        ]);
    }
    human::table("Coordination locks", &headers, &rows)
}

// ---------------------------------------------------------------------------
// Plans of tasks
// ---------------------------------------------------------------------------

/// The values of a list; none of what is no list.
pub open spec fn items_of(d: Option<Doc>) -> Seq<Doc> {
    match d {
        Some(v) => match v.shape {
            Shape::List(list) => list,
            _ => Seq::<Doc>::empty(),
        },
        None => Seq::<Doc>::empty(),
    }
}

/// The text of a member, or nothing.
pub open spec fn member_said(d: Doc, key: Seq<char>) -> Seq<char> {
    or_else(json::text_of(json::member(d, key)), Seq::<char>::empty())
}

fn say_member(j: &Json, key: &str) -> (r: String)
    ensures
        r@ == member_said(j@, key@),
{
    match j.get(key) {
        Some(v) => match v.as_text() {
            Some(s) => s.clone(),
            None => String::new(),
        },
        None => String::new(),
    }
}

/// A step of a plan as a row.
pub open spec fn plan_row(step: Doc) -> Seq<Seq<char>> {
    seq![
        member_said(step, "id"@),
        member_said(step, "scope"@),
        member_said(step, "origin"@),
        member_said(step, "cwd"@),
    ]
}

/// The headline of a plan: its task and its arguments.
pub open spec fn plan_headline(d: Doc) -> Seq<char> {
    let task = or_else(json::text_of(json::member(d, "task"@)), "task"@);
    let args = items_of(json::member(d, "args"@));
    if args.len() == 0 {
        "Plan for "@ + task
    } else {
        "Plan for "@ + task + " -- "@ + text::join(args.map_values(|a: Doc| a.compact), " "@)
    }
}

fn compacts(list: &Vec<Json>) -> (r: Vec<String>)
    ensures
        text::texts(r@) == json::docs(list@).map_values(|a: Doc| a.compact),
{
    let ghost all = json::docs(list@).map_values(|a: Doc| a.compact);
    let mut out: Vec<String> = Vec::new();
    let mut i: usize = 0;
    proof {
        assert(text::texts(out@) =~= all.take(0));
    }
    while i < list.len()
        invariant
            i <= list.len(),
            all == json::docs(list@).map_values(|a: Doc| a.compact),
            text::texts(out@) == all.take(i as int),
        decreases list.len() - i,
    {
        let ghost prior = text::texts(out@);
        out.push(list[i].compact.clone());
        proof {
            json::what_a_value_holds(list@[i as int]);
            assert(text::texts(out@) =~= prior.push(all[i as int]));
            assert(all.take(i + 1) =~= all.take(i as int).push(all[i as int]));
        }
        i = i + 1;
    }
    proof {
        assert(all.take(list@.len() as int) =~= all);
    }
    out
}

fn headline_of(j: &Json) -> (r: String)
    ensures
        r@ == plan_headline(j@),
{
    let task = match j.get("task") {
        Some(v) => match v.as_text() {
            Some(s) => s.clone(),
            None => "task".to_owned(),
        },
        None => "task".to_owned(),
    };
    let lead = "Plan for ".to_owned().concat(task.as_str());
    if let Some(v) = j.get("args") {
        proof {
            json::what_a_value_holds(*v);
        }
        if let Kind::List(list) = &v.kind {
            if list.len() > 0 {
                return lead.concat(" -- ").concat(
                    text::join_with(&compacts(list), " ").as_str(),
                );
            }
        }
    }
    lead
}

/// The summary of a run: the table of a plan that was not carried out, and nothing of
/// one that was.
pub open spec fn run_said(d: Doc) -> Seq<char> {
    if json::member(d, "steps"@) is Some && json::member(d, "target"@) is None {
        human::table_text(
            plan_headline(d),
            seq!["task"@, "scope"@, "layer"@, "cwd"@],
            items_of(json::member(d, "steps"@)).map_values(|s: Doc| plan_row(s)),
        )
    } else {
        Seq::<char>::empty()
    }
}

/// The summary of a run.
pub fn render_run(j: &Json) -> (r: String)
    ensures
        r@ == run_said(j@),
{
    if j.get("target").is_some() {
        return String::new();
    }
    let steps = match j.get("steps") {
        Some(v) => v,
        None => {
            return String::new();
        },
    };
    let mut rows: Vec<Vec<String>> = Vec::new();
    let ghost items = items_of(json::member(j@, "steps"@));
    let ghost all = items.map_values(|s: Doc| plan_row(s));
    proof {
        json::what_a_value_holds(*steps);
        assert(human::rows_view(rows@) =~= all.take(0));
    }
    if let Kind::List(list) = &steps.kind {
        let mut i: usize = 0;
        while i < list.len()
            invariant
                i <= list.len(),
                items == json::docs(list@),
                all == items.map_values(|s: Doc| plan_row(s)),
                human::rows_view(rows@) == all.take(i as int),
            decreases list.len() - i,
        {
            let row = four(
                say_member(&list[i], "id").as_str(),
                say_member(&list[i], "scope").as_str(),
                say_member(&list[i], "origin").as_str(),
                say_member(&list[i], "cwd").as_str(),
            );
            push_row(&mut rows, row);
            proof {
                assert(all.take(i + 1) =~= all.take(i as int).push(all[i as int]));
            }
            i = i + 1;
        }
    }
    proof {
        assert(human::rows_view(rows@) =~= all);
    }
    human::table(headline_of(j).as_str(), &four("task", "scope", "layer", "cwd"), &rows)
}

} // verus!
