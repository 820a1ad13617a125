# herdr-worktree-hooks-plugin

A herdr plugin that seeds a newly created git worktree from its main checkout:
it copies gitignored files such as `.env` and then runs the setup commands
configured for the repository.

The decisions are a library verified with Verus (`src/`):

- `event`, `json`: parsing herdr's JSON (through `serde_json`) and finding the
  worktree a payload describes;
- `config`: which files to copy and which commands to run for a repository;
- `claim`: the file name that claims a worktree checkout;
- `actions`: which copy entries are acceptable and what to do with each, and
  `ApplyRun`, the seeding of one worktree one step at a time (branch, each
  entry, each command; the first failure stops it), with the law that a
  re-run over untouched checkouts copies nothing;
- `hooks`: the run of one event or action, from target to claim to hooks,
  and the laws it keeps (the main checkout is skipped, stale checkouts are
  skipped outside `worktree.created`, a claimed worktree is not re-applied,
  a failed run gives back the claim it took), and a model of runs that share
  the claim files, in which at most one run is inside the hooks at a time;
- `paths`, `text`: path joining and comparison, string helpers.

The program around it (`app/`) reads the environment, the configuration file
and herdr's replies, touches the filesystem and runs the commands.
