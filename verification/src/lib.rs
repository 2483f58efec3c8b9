//! Finds git repositories (and, on request, Nix flakes) below a directory
//! and reports which have uncommitted changes (or lock-file updates).
//!
//! The library holds the decisions: which directories the search descends
//! into and reports (`scan`), which repositories are listed and with what
//! (`repo`), how a flake check proceeds and what it concludes (`flake`), and
//! the text of the report (`report`).  The program around it does the file
//! system, git and process work and prints the lines.
pub mod args;
pub mod flake;
pub mod repo;
pub mod report;
pub mod scan;
pub mod text;
