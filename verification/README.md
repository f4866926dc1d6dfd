# wt

The logic of a command-line tool that manages git worktrees: it registers
repositories under labels, makes and removes trees, gives each a slot of ports, an
environment and a terminal session, builds them, and repairs what a broken run leaves
behind.

What decides or computes is a Verus library in `src/`, with contracts and proofs.
What reads, writes, waits or starts a process is ordinary Rust in `app/`, which so far
has a command line only for what needs no registry. How settings and records are laid
out in files is left to whoever reads them; the library takes what they say.
Where the two alternate, the library holds a machine: a state, a step to perform, and
an `advance` that takes what came of it.

- Text, order and documents: `text`, `order`, `assoc`, `path`, `json`, `clock`,
  `meta`.
- The system underneath: `fsx` (files), `proc` (processes), `lock` and `locks`,
  `git`, `net`, `term`, `tmux`, `snapshot`, `probe`, `failpoint`, `trace`, `forge`.
- Records and the state of trees: `model`, `lifecycle`, `context`, `env`.
- Commands: `register`, `adopt`, `anchor`, `clone_repo`, `new`, `worktree`, `open`,
  `door`, `builds`, `executor`, `list`, `walk`, `prune`, `remove`, `forget`,
  `doctor`, `verbs`.
- What is said: `error`, `output`, `human`, `summary`.

Public proof functions state what holds of several functions or of a whole run, for
example that an occupied branch is never added a second time
(`worktree::a_held_branch_is_never_added`) or that no removal goes on past a
directory that was replaced (`remove::a_replacement_is_never_removed`).

The calls into `serde_json` and the standard library that are trusted rather than
proved stand in `json`, `text`, `term` and `clock`.
