//! The options a run is given, and what they decide before any scanning.
use vstd::prelude::*;

verus! {

/// The command-line options.
pub struct Args {
    /// Print the help message.
    pub help: bool,
    /// Print the version.
    pub version: bool,
    /// The directory to search; the current directory when absent.
    pub path: Option<String>,
    /// List the changed files of each repository.
    pub files: bool,
    /// List repositories without changes too.
    pub empty: bool,
    /// Print counts only.
    pub compact: bool,
    /// Check Nix flakes for lock updates.
    pub flakes: bool,
}

/// Whether the Nix flake check was asked for.
pub fn flakes_enabled(args: &Args) -> (r: bool)
    ensures
        r == args.flakes,
{
    args.flakes
}

/// Why a run cannot go ahead.
pub enum RunError {
    /// The flake check was asked for, but the program was built without it.
    NixSupportMissing,
}

impl RunError {
    /// The text the error is reported with.
    pub fn message(&self) -> (r: String)
        ensures
            match self {
                RunError::NixSupportMissing => r@
                    == "Nix flake checks require building with `--features nix`"@,
            },
    {
        match self {
            RunError::NixSupportMissing => String::from_str(
                "Nix flake checks require building with `--features nix`",
            ),
        }
    }
}

/// Whether the run searches for flakes: not unless asked for, and, when
/// asked for, only if the program has the flake check (`nix_support`);
/// otherwise the run fails.
pub fn flake_scan_plan(args: &Args, nix_support: bool) -> (r: Result<bool, RunError>)
    ensures
        !args.flakes ==> r == Ok::<bool, RunError>(false),
        args.flakes && nix_support ==> r == Ok::<bool, RunError>(true),
        args.flakes && !nix_support ==> r == Err::<bool, RunError>(RunError::NixSupportMissing),
{
    if !flakes_enabled(args) {
        Ok(false)
    } else if nix_support {
        Ok(true)
    } else {
        Err(RunError::NixSupportMissing)
    }
}

} // verus!
