use zinc_oxide::flake::{
    begin_flake_check, count_updatable, flake_lock_path, lock_file_name, FlakeStatus, FlakeStep,
    UpdateOutput, UpdatePending,
};

const GENERATED: &str = "/tmp/zinc_oxide-flake-lock-7-ff-99.lock";

fn begin(path: &str, has_lock: bool) -> FlakeStep {
    begin_flake_check(path.to_string(), has_lock, "/tmp", 7, 255, 99)
}

fn done(step: FlakeStep) -> (FlakeStatus, Option<String>) {
    match step {
        FlakeStep::Done(s, cleanup) => (s, cleanup),
        _ => panic!("the check should be over"),
    }
}

fn run_to_update(path: &str, old: &str) -> UpdatePending {
    let lock = match begin(path, true) {
        FlakeStep::ReadLock(p) => p,
        _ => panic!("the lock file should be read next"),
    };
    assert_eq!(lock.path(), path);
    assert_eq!(lock.lock_path(), format!("{}/flake.lock", path));
    match lock.lock_read(Ok(old.to_string())) {
        FlakeStep::RunUpdate(p) => p,
        _ => panic!("the update should run next"),
    }
}

fn output(success: bool, stdout: &str, stderr: &str) -> UpdateOutput {
    UpdateOutput {
        success,
        status: "exit status: 1".to_string(),
        stdout: stdout.to_string(),
        stderr: stderr.to_string(),
    }
}

#[test]
fn flake_without_lock_file_is_not_checked() {
    let (s, cleanup) = done(begin("/f", false));
    assert_eq!(s.path, "/f");
    assert!(!s.has_lock_file);
    assert_eq!(s.updates_available, None);
    assert_eq!(s.update_output, None);
    assert_eq!(cleanup, None);
}

#[test]
fn unreadable_lock_file_is_reported() {
    let lock = match begin("/f", true) {
        FlakeStep::ReadLock(p) => p,
        _ => panic!(),
    };
    let (s, cleanup) = done(lock.lock_read(Err("permission denied".to_string())));
    assert!(s.has_lock_file);
    assert_eq!(s.updates_available, None);
    assert_eq!(s.update_output.as_deref(), Some("Failed to read lock file: permission denied"));
    assert_eq!(cleanup, None);
}

#[test]
fn update_command_writes_a_separate_lock_file() {
    let p = run_to_update("/f", "{}");
    assert_eq!(
        p.command(),
        vec!["nix", "flake", "update", "--flake", "/f", "--output-lock-file", GENERATED]
    );
}

#[test]
fn update_that_cannot_run_is_reported() {
    let p = run_to_update("/f", "{}");
    let (s, cleanup) = done(p.update_finished(Err("No such file or directory".to_string())));
    assert_eq!(s.updates_available, None);
    assert_eq!(s.update_output.as_deref(), Some("nix command failed: No such file or directory"));
    assert_eq!(cleanup.as_deref(), Some(GENERATED));
}

#[test]
fn failed_update_reports_its_output_trimmed() {
    let p = run_to_update("/f", "{}");
    let (s, cleanup) = done(p.update_finished(Ok(output(false, "  out\n", "err \n\n"))));
    assert_eq!(s.updates_available, None);
    assert_eq!(s.update_output.as_deref(), Some("out\nerr"));
    assert_eq!(cleanup.as_deref(), Some(GENERATED));
}

#[test]
fn silent_failed_update_reports_its_status() {
    let p = run_to_update("/f", "{}");
    let (s, _) = done(p.update_finished(Ok(output(false, " \n", "\t"))));
    assert_eq!(s.update_output.as_deref(), Some("nix command failed with status exit status: 1"));
}

#[test]
fn changed_lock_means_updates() {
    let p = run_to_update("/f", "{\"old\": 1}");
    let g = match p.update_finished(Ok(output(true, "", "• Updated input 'nixpkgs'\n"))) {
        FlakeStep::ReadGenerated(g) => g,
        _ => panic!("the generated lock should be read next"),
    };
    assert_eq!(g.path(), "/f");
    assert_eq!(g.output_path(), GENERATED);
    let (s, cleanup) = done(g.generated_read(Ok("{\"new\": 2}".to_string())));
    assert_eq!(s.updates_available, Some(true));
    assert_eq!(s.update_output.as_deref(), Some("• Updated input 'nixpkgs'"));
    assert_eq!(cleanup.as_deref(), Some(GENERATED));
}

#[test]
fn changed_lock_with_silent_update() {
    let p = run_to_update("/f", "a");
    let g = match p.update_finished(Ok(output(true, "", ""))) {
        FlakeStep::ReadGenerated(g) => g,
        _ => panic!(),
    };
    let (s, _) = done(g.generated_read(Ok("b".to_string())));
    assert_eq!(s.updates_available, Some(true));
    assert_eq!(s.update_output.as_deref(), Some("Lock file differs after update"));
}

#[test]
fn same_lock_means_no_updates() {
    let p = run_to_update("/f", "same");
    let g = match p.update_finished(Ok(output(true, "x", ""))) {
        FlakeStep::ReadGenerated(g) => g,
        _ => panic!(),
    };
    let (s, _) = done(g.generated_read(Ok("same".to_string())));
    assert_eq!(s.updates_available, Some(false));
    assert_eq!(s.update_output.as_deref(), Some("No updates available"));
}

#[test]
fn unreadable_generated_lock_is_reported() {
    let p = run_to_update("/f", "same");
    let g = match p.update_finished(Ok(output(true, "", ""))) {
        FlakeStep::ReadGenerated(g) => g,
        _ => panic!(),
    };
    let (s, cleanup) = done(g.generated_read(Err("gone".to_string())));
    assert_eq!(s.updates_available, None);
    assert_eq!(s.update_output.as_deref(), Some("Failed to read generated lock file: gone"));
    assert_eq!(cleanup.as_deref(), Some(GENERATED));
}

#[test]
fn count_updatable_counts_only_known_updates() {
    let f = |u: Option<bool>| FlakeStatus {
        path: "/f".to_string(),
        has_lock_file: true,
        updates_available: u,
        update_output: None,
    };
    assert_eq!(count_updatable(&vec![f(Some(true)), f(None), f(Some(false)), f(Some(true))]), 2);
}

#[test]
fn lock_file_name_is_never_flake_lock() {
    let name = lock_file_name(4242, 0xdead_beef, 1_700_000_000_123_456_789);
    assert_eq!(name, "zinc_oxide-flake-lock-4242-deadbeef-1700000000123456789.lock");
    assert_ne!(name, "flake.lock");
    assert_eq!(lock_file_name(0, 0, 0), "zinc_oxide-flake-lock-0-0-0.lock");
}

#[test]
fn test_temporary_lock_path_is_outside_flake_project() {
    let p = match begin_flake_check("/home/u/project".to_string(), true, "/tmp/", 1, 2, 3) {
        FlakeStep::ReadLock(p) => p,
        _ => panic!(),
    };
    let update = match p.lock_read(Ok("{}".to_string())) {
        FlakeStep::RunUpdate(u) => u,
        _ => panic!(),
    };
    let command = update.command();
    let output = &command[6];
    assert_eq!(output, "/tmp/zinc_oxide-flake-lock-1-2-3.lock");
    assert!(output.starts_with("/tmp/"));
    assert!(!output.starts_with("/home/u/project"));
    assert!(!output.ends_with("/flake.lock"));
}

#[test]
fn flake_lock_paths_join_like_path_join() {
    assert_eq!(flake_lock_path("/f"), "/f/flake.lock");
    assert_eq!(flake_lock_path("/f/"), "/f/flake.lock");
    assert_eq!(flake_lock_path(""), "flake.lock");
}
