# zinc_oxide

A command-line tool that searches a directory tree for git repositories (and,
on request, Nix flakes) and reports which have uncommitted changes (or
lock-file updates).

- `src/` is the verified library: the depth-first search as a state machine
  (`scan`), the choice of repositories to list (`repo`), the flake check as a
  sequence of steps (`flake`), the text of the report (`report`), the run
  options (`args`) and the character-level text handling they use (`text`).
- `app/main.rs` is the program: argument parsing, directory listing, git,
  running `nix flake update`, and printing the report's lines.
- `tests/` exercises the library on concrete values.
