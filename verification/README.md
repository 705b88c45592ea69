# git-global

Keep track of all the git repositories on a machine: scan for them, tag them,
list and filter them, show their status, and run configured actions in them.

The crate is written in Verus. `src/` is the library, every function of which
is verified against its `requires` / `ensures` contract:

- `models/` — repos and tags, the configuration, the result of a subcommand,
  the state of the tagging prompt, actions, and the error type;
- `subcommands/` — what each subcommand computes from the repos, tags and
  settings it is given (filter, tag, scan, list, list-tags, status, info,
  action, clean, and the interactive prompts' state);
- `cli.rs` — which subcommand a parsed command line asks for, in the flat
  layout (`git global [status]`, `list`, `scan`, `info`, ...) and in the
  nested one (`repos list`, `tags add`, ...), and what is shown of its
  outcome;
- `pieces.rs`, `text.rs`, `order.rs` — splitting, joining, trimming and
  comparing text, and sorting without repeats;
- `paint.rs` — terminal colours through the `colored` crate.

`app/` is the program around the library: the command line parser, reading
the settings and the cache, walking the file system, asking git for file
statuses, running actions, the terminal user interface, and printing.
