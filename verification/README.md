# aur_pkg_manager

A sandboxed installer for packages of the Arch User Repository, written in
Verus.

- `src/` is the verified library: the dependency resolver (a state machine
  that asks pacman and the AUR what it needs to know), the dependency graph
  and its install order, the readers of pacman's and makepkg's output, the
  bubblewrap command of the build sandbox, the local package database files,
  and what the terminal shows.
- `app/` is the command-line program around it: it parses arguments, runs
  pacman, git, bubblewrap and HTTP requests, answers the resolver's
  questions, and draws tables and progress bars.
- `tests/` exercises the library on concrete values.
