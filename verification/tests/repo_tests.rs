use zinc_oxide::repo::{
    collect_repo_statuses, count_dirty, repo_diagnostic, repo_status, RepoProbe, RepoStatus,
};

fn changes(paths: &[Option<&str>]) -> RepoProbe {
    RepoProbe::Changes(paths.iter().map(|p| p.map(|s| s.to_string())).collect())
}

#[test]
fn unusable_repositories_are_not_listed() {
    assert!(repo_status("/r".to_string(), RepoProbe::Unopenable("no".to_string()), true).is_none());
    assert!(repo_status("/r".to_string(), RepoProbe::Bare, true).is_none());
    assert!(repo_status("/r".to_string(), RepoProbe::StatusUnavailable, true).is_none());
}

#[test]
fn clean_repository_listed_only_with_empty_flag() {
    assert!(repo_status("/r".to_string(), changes(&[]), false).is_none());
    let s = repo_status("/r".to_string(), changes(&[]), true).unwrap();
    assert_eq!(s.path, "/r");
    assert_eq!(s.uncommitted_count, 0);
    assert!(s.files.is_empty());
}

#[test]
fn changed_repository_lists_its_files() {
    let s = repo_status("/r".to_string(), changes(&[Some("a.txt"), None, Some("b/c.rs")]), false).unwrap();
    assert_eq!(s.uncommitted_count, 3);
    assert_eq!(s.files, vec!["a.txt".to_string(), "b/c.rs".to_string()]);
}

#[test]
fn collect_keeps_order_and_drops_unlisted() {
    let probes = vec![
        ("/a".to_string(), changes(&[Some("x")])),
        ("/b".to_string(), RepoProbe::Bare),
        ("/c".to_string(), changes(&[])),
        ("/d".to_string(), changes(&[Some("y"), Some("z")])),
    ];
    let (listed, diagnostics) = collect_repo_statuses(probes, false);
    assert!(diagnostics.is_empty());
    let paths: Vec<&str> = listed.iter().map(|r| r.path.as_str()).collect();
    assert_eq!(paths, vec!["/a", "/d"]);
    assert_eq!(count_dirty(&listed), 2);
}

#[test]
fn collect_with_empty_flag_keeps_clean_repositories() {
    let probes = vec![("/a".to_string(), changes(&[])), ("/b".to_string(), RepoProbe::Unopenable("gone".to_string()))];
    let (listed, diagnostics) = collect_repo_statuses(probes, true);
    assert_eq!(diagnostics, vec!["Cannot open repository /b: gone".to_string()]);
    assert_eq!(listed.len(), 1);
    assert_eq!(listed[0].uncommitted_count, 0);
    assert_eq!(count_dirty(&listed), 0);
}

#[test]
fn count_dirty_counts_changed_repositories() {
    let r = |n: usize| RepoStatus { path: "/p".to_string(), uncommitted_count: n, files: vec![] };
    assert_eq!(count_dirty(&vec![]), 0);
    assert_eq!(count_dirty(&vec![r(0), r(3), r(0), r(1)]), 2);
}

#[test]
fn only_unopenable_repositories_are_diagnosed() {
    assert_eq!(repo_diagnostic(&"/r".to_string(), &RepoProbe::Bare), None);
    assert_eq!(repo_diagnostic(&"/r".to_string(), &RepoProbe::StatusUnavailable), None);
    assert_eq!(repo_diagnostic(&"/r".to_string(), &changes(&[Some("a")])), None);
    assert_eq!(
        repo_diagnostic(&"/r".to_string(), &RepoProbe::Unopenable("why".to_string())),
        Some("Cannot open repository /r: why".to_string())
    );
}
