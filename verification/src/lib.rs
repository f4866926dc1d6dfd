//! Decisions of `wt`, a manager of git worktrees: what to parse, refuse, plan,
//! render and report, kept apart from the effects that carry them out.

pub mod adopt;
pub mod anchor;
pub mod assoc;
pub mod builds;
pub mod clock;
pub mod clone_repo;
pub mod context;
pub mod course;
pub mod doctor;
pub mod door;
pub mod env;
pub mod error;
pub mod executor;
pub mod failpoint;
pub mod forge;
pub mod forget;
pub mod fsx;
pub mod git;
pub mod human;
pub mod json;
pub mod lifecycle;
pub mod list;
pub mod lock;
pub mod locks;
pub mod meta;
pub mod model;
pub mod net;
pub mod new;
pub mod open;
pub mod order;
pub mod output;
pub mod path;
pub mod probe;
pub mod proc;
pub mod prune;
pub mod register;
pub mod remove;
pub mod snapshot;
pub mod summary;
pub mod term;
pub mod text;
pub mod tmux;
pub mod trace;
pub mod verbs;
pub mod walk;
pub mod worktree;
