use zinc_oxide::args::Args;
use zinc_oxide::flake::FlakeStatus;
use zinc_oxide::repo::{collect_repo_statuses, RepoProbe, RepoStatus};
use zinc_oxide::report::report_lines;

fn args(files: bool, compact: bool, flakes: bool) -> Args {
    Args { help: false, version: false, path: None, files, empty: false, compact, flakes }
}

fn repo(path: &str, files: &[&str]) -> RepoStatus {
    RepoStatus {
        path: path.to_string(),
        uncommitted_count: files.len(),
        files: files.iter().map(|f| f.to_string()).collect(),
    }
}

fn flake(path: &str, lock: bool, updates: Option<bool>, output: Option<&str>) -> FlakeStatus {
    FlakeStatus {
        path: path.to_string(),
        has_lock_file: lock,
        updates_available: updates,
        update_output: output.map(|s| s.to_string()),
    }
}

#[test]
fn test_run_function_no_repositories() {
    let lines = report_lines(&vec![], &vec![], &args(false, false, false), "/nonexistent/path", 0, 0, "1.2.3");
    assert_eq!(
        lines,
        vec![
            "zinc_oxide v1.2.3".to_string(),
            "Searching for git repositories in: /nonexistent/path".to_string(),
            "No git repositories found.".to_string(),
        ]
    );
}

#[test]
fn report_with_changed_repository_and_files() {
    let repos = vec![repo("/t/repo", &["test_file.txt"])];
    let lines = report_lines(&repos, &vec![], &args(true, false, false), "/t", 1, 0, "0.1.0");
    assert_eq!(
        lines[2..].to_vec(),
        vec![
            "Found 1 git repositories:".to_string(),
            "\n--- Repository: /t/repo ---".to_string(),
            "Found 1 uncommitted files".to_string(),
            "  test_file.txt".to_string(),
        ]
    );
    let no_files = report_lines(&repos, &vec![], &args(false, false, false), "/t", 1, 0, "0.1.0");
    assert_eq!(no_files.len(), 5);
    assert!(!no_files.iter().any(|l| l.contains("test_file.txt")));
}

#[test]
fn test_run_function_with_empty_flag() {
    let (repos, _) = collect_repo_statuses(
        vec![("/t/clean_repo".to_string(), RepoProbe::Changes(vec![]))],
        true,
    );
    let lines = report_lines(&repos, &vec![], &Args { empty: true, ..args(false, false, false) }, "/t", 1, 0, "0.1.0");
    assert_eq!(lines[4], "No uncommitted files");
}

#[test]
fn test_run_function_multiple_repositories() {
    let lines = report_lines(&vec![], &vec![], &args(false, false, false), "/t", 2, 0, "0.1.0");
    assert_eq!(lines[2], "Found 2 git repositories:");
    assert_eq!(lines.len(), 3);
}

#[test]
fn compact_report_counts_changed_repositories() {
    let repos = vec![repo("/a", &["x"]), repo("/b", &[]), repo("/c", &["y", "z"])];
    let lines = report_lines(&repos, &vec![], &args(true, true, false), "/t", 3, 0, "0.1.0");
    assert_eq!(lines, vec!["2 repos".to_string()]);
}

#[test]
fn compact_report_with_flakes() {
    let repos = vec![repo("/a", &["x"])];
    let flakes = vec![flake("/f", true, Some(true), None), flake("/g", true, Some(false), None)];
    let lines = report_lines(&repos, &flakes, &args(false, true, true), "/t", 1, 2, "0.1.0");
    assert_eq!(lines, vec!["1 repos, 1 flakes with updates".to_string()]);
}

#[test]
fn report_flake_section() {
    let flakes = vec![
        flake("/f1", false, None, None),
        flake("/f2", true, Some(true), Some("• Updated input 'a'\nunrelated\nwarning: updated b")),
        flake("/f3", true, Some(false), Some("No updates available")),
        flake("/f4", true, None, Some("nix command failed: x")),
    ];
    let lines = report_lines(&vec![], &flakes, &args(true, false, true), "/t", 0, 4, "0.1.0");
    assert_eq!(
        lines[2..].to_vec(),
        vec![
            "No git repositories found.".to_string(),
            "".to_string(),
            "Found 4 Nix flakes:".to_string(),
            "\n--- Flake: /f1 ---".to_string(),
            "No flake.lock file (needs initialization)".to_string(),
            "\n--- Flake: /f2 ---".to_string(),
            "Updates available!".to_string(),
            "  • Updated input 'a'".to_string(),
            "  warning: updated b".to_string(),
            "\n--- Flake: /f3 ---".to_string(),
            "No updates available".to_string(),
            "\n--- Flake: /f4 ---".to_string(),
            "Unable to check for updates (nix command failed)".to_string(),
        ]
    );
}

#[test]
fn report_without_flakes_found() {
    let lines = report_lines(&vec![], &vec![], &args(false, false, true), "/t", 0, 0, "0.1.0");
    assert_eq!(lines[3..].to_vec(), vec!["".to_string(), "No Nix flakes found.".to_string()]);
}

#[test]
fn test_run_function_repository_with_changes() {
    let repos = vec![repo("/t/repo", &["test_file.txt"])];
    let lines = report_lines(&repos, &vec![], &args(false, false, false), "/t", 1, 0, "0.1.0");
    assert!(lines.iter().any(|l| l.contains("uncommitted files")));
}

#[test]
fn test_run_function_with_files_flag() {
    let repos = vec![repo("/t/repo", &["test_file.txt"])];
    let lines = report_lines(&repos, &vec![], &args(true, false, false), "/t", 1, 0, "0.1.0");
    assert!(lines.iter().any(|l| l.contains("test_file.txt")));
}

#[test]
fn test_run_function_bare_repository() {
    let (listed, diagnostics) = collect_repo_statuses(vec![("/t/bare_repo".to_string(), RepoProbe::Bare)], true);
    assert!(diagnostics.is_empty());
    let lines = report_lines(&listed, &vec![], &args(false, false, false), "/t", 1, 0, "0.1.0");
    assert!(!lines.iter().any(|l| l.contains("bare_repo")));
}

#[test]
fn test_special_characters_in_paths() {
    let message = "could not find repository at '/t/repo_with_symbols/'";
    let (listed, diagnostics) = collect_repo_statuses(
        vec![("/t/repo_with_symbols".to_string(), RepoProbe::Unopenable(message.to_string()))],
        false,
    );
    assert_eq!(diagnostics.len(), 1);
    assert!(diagnostics[0].contains("could not find repository"));
    let lines = report_lines(&listed, &vec![], &args(false, false, false), "/t", 1, 0, "0.1.0");
    assert!(lines.iter().any(|l| l.contains("Found 1 git repositories")));
}

#[test]
fn test_run_function_clean_repository() {
    let (listed, diagnostics) = collect_repo_statuses(
        vec![("/t/clean_repo".to_string(), RepoProbe::Changes(vec![]))],
        false,
    );
    assert!(diagnostics.is_empty());
    assert!(listed.is_empty());
    let lines = report_lines(&listed, &vec![], &args(false, false, false), "/t", 1, 0, "0.1.0");
    assert!(!lines.iter().any(|l| l.contains("No git repositories found")));
    assert_eq!(lines[2], "Found 1 git repositories:");
    assert!(!lines.iter().any(|l| l.contains("No uncommitted files")));
}

#[test]
fn clean_repository_with_and_without_empty_flag() {
    let probe = || vec![("/t/clean_repo".to_string(), RepoProbe::Changes(vec![]))];
    let (shown, _) = collect_repo_statuses(probe(), true);
    let with_empty = report_lines(&shown, &vec![], &Args { empty: true, ..args(false, false, false) }, "/t", 1, 0, "0.1.0");
    assert!(with_empty.iter().any(|l| l.contains("No uncommitted files")));
    assert!(with_empty.iter().any(|l| l == "\n--- Repository: /t/clean_repo ---"));
    let (hidden, _) = collect_repo_statuses(probe(), false);
    let without_empty = report_lines(&hidden, &vec![], &args(false, false, false), "/t", 1, 0, "0.1.0");
    assert!(!without_empty.iter().any(|l| l.contains("No uncommitted files")));
    assert!(!without_empty.iter().any(|l| l.contains("clean_repo")));
}
