# wipe

A git-native task board for humans and agents: ordered lists of tickets, a
threaded forum, a trash with retention, subscriptions and an inbox, all kept as
flat JSON under `.wipe/` in the project's repository.

## Layout

- `src/` is the library, verified with Verus. A `Store` holds a board's whole
  state (board, definitions, settings, identities, subscriptions, tickets,
  threads, trash) as plain values with a well-formedness invariant; every
  operation on it (`ops`, `forum`, `trash`, `inbox`, `keys`, `identity`, ...)
  states in its contract exactly how the state changes and what it returns.
  Parsing of VCS output (`git`, `vcs`), version checks, configuration keys and
  the onboarding decisions live here too.
- `app/` is the `wipe` binary: argument parsing, the files under `.wipe/`,
  running git and other VCS tools, prompts, colours and the local HTTP daemon.
  It reads the disk, hands the library plain values and writes back what the
  library returns.
- `tests/` exercises the library on concrete values.
