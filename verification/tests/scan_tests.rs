use std::collections::HashMap;
use zinc_oxide::scan::{
    starts_with_dot, DirEntryInfo, DirVisit, Listing, Scanner, FLAKE_MARKER, GIT_MARKER,
};

/// A directory of a made-up file system: whether it holds the marker, and its
/// entries (name, is a directory).
struct FakeDir {
    marker: bool,
    entries: Vec<(&'static str, bool)>,
}

fn visit(fs: &HashMap<String, FakeDir>, dir: &str) -> DirVisit {
    match fs.get(dir) {
        None => DirVisit { has_marker: false, listing: Listing::NotADirectory },
        Some(d) => DirVisit {
            has_marker: d.marker,
            listing: Listing::Entries(
                d.entries
                    .iter()
                    .map(|(name, is_dir)| {
                        Some(DirEntryInfo {
                            path: format!("{}/{}", dir, name),
                            name: name.to_string(),
                            is_dir: *is_dir,
                        })
                    })
                    .collect(),
            ),
        },
    }
}

fn scan(fs: &HashMap<String, FakeDir>, root: &str) -> Vec<String> {
    let mut scanner = Scanner::new(root.to_string());
    while let Some(dir) = scanner.next_dir() {
        let v = visit(fs, &dir);
        assert_eq!(scanner.record(dir, v), None);
    }
    scanner.into_found()
}

fn dir(marker: bool, entries: Vec<(&'static str, bool)>) -> FakeDir {
    FakeDir { marker, entries }
}

#[test]
fn test_find_git_repositories_empty_directory() {
    let mut fs = HashMap::new();
    fs.insert("/t".to_string(), dir(false, vec![]));
    assert_eq!(scan(&fs, "/t").len(), 0);
}

#[test]
fn test_find_git_repositories_single_repo() {
    let mut fs = HashMap::new();
    fs.insert("/t".to_string(), dir(true, vec![(".git", true)]));
    fs.insert("/t/.git".to_string(), dir(false, vec![]));
    let found = scan(&fs, "/t");
    assert_eq!(found, vec!["/t".to_string()]);
}

#[test]
fn test_find_git_repositories_nested_repos() {
    let mut fs = HashMap::new();
    fs.insert("/t".to_string(), dir(false, vec![("repo1", true), ("nested", true), ("repo2", true), ("file.txt", false)]));
    fs.insert("/t/repo1".to_string(), dir(true, vec![(".git", true)]));
    fs.insert("/t/repo2".to_string(), dir(true, vec![(".git", true)]));
    fs.insert("/t/nested".to_string(), dir(false, vec![("deep", true)]));
    fs.insert("/t/nested/deep".to_string(), dir(true, vec![(".git", true)]));
    let found = scan(&fs, "/t");
    assert_eq!(found.len(), 3);
    assert_eq!(found, vec!["/t/repo1".to_string(), "/t/nested/deep".to_string(), "/t/repo2".to_string()]);
}

#[test]
fn scan_reports_a_repository_inside_a_repository() {
    let mut fs = HashMap::new();
    fs.insert("/t".to_string(), dir(true, vec![("sub", true)]));
    fs.insert("/t/sub".to_string(), dir(true, vec![]));
    assert_eq!(scan(&fs, "/t"), vec!["/t".to_string(), "/t/sub".to_string()]);
}

#[test]
fn test_find_git_repositories_ignores_hidden_dirs() {
    let mut fs = HashMap::new();
    fs.insert("/t".to_string(), dir(false, vec![(".hidden", true), ("normal", true)]));
    fs.insert("/t/.hidden".to_string(), dir(true, vec![(".git", true)]));
    fs.insert("/t/normal".to_string(), dir(true, vec![(".git", true)]));
    let found = scan(&fs, "/t");
    assert_eq!(found.len(), 1);
    assert_eq!(found[0], "/t/normal");
}

#[test]
fn test_find_git_repositories_nonexistent_directory() {
    let fs = HashMap::new();
    assert_eq!(scan(&fs, "/nonexistent/path").len(), 0);
}

#[test]
fn scan_skips_unreadable_entries_and_files() {
    let mut scanner = Scanner::new("/t".to_string());
    let root = scanner.next_dir().unwrap();
    let diagnostic = scanner.record(
        root,
        DirVisit {
            has_marker: false,
            listing: Listing::Entries(vec![
                None,
                Some(DirEntryInfo { path: "/t/a.txt".to_string(), name: "a.txt".to_string(), is_dir: false }),
                Some(DirEntryInfo { path: "/t/d".to_string(), name: "d".to_string(), is_dir: true }),
            ]),
        },
    );
    assert_eq!(diagnostic, None);
    assert_eq!(scanner.next_dir(), Some("/t/d".to_string()));
    assert_eq!(scanner.next_dir(), None);
    assert!(scanner.is_done());
}

#[test]
fn scan_visits_subdirectories_in_listing_order() {
    let mut scanner = Scanner::new("/t".to_string());
    let root = scanner.next_dir().unwrap();
    let e = |n: &str| Some(DirEntryInfo { path: format!("/t/{}", n), name: n.to_string(), is_dir: true });
    scanner.record(root, DirVisit { has_marker: false, listing: Listing::Entries(vec![e("a"), e("b"), e("c")]) });
    assert_eq!(scanner.next_dir(), Some("/t/a".to_string()));
    assert_eq!(scanner.next_dir(), Some("/t/b".to_string()));
    assert_eq!(scanner.next_dir(), Some("/t/c".to_string()));
    assert_eq!(scanner.next_dir(), None);
}

#[test]
fn hidden_names_start_with_a_dot() {
    assert!(starts_with_dot(&".git".to_string()));
    assert!(starts_with_dot(&".".to_string()));
    assert!(!starts_with_dot(&"git".to_string()));
    assert!(!starts_with_dot(&"".to_string()));
    assert!(!starts_with_dot(&"a.b".to_string()));
}

#[test]
fn markers_are_git_and_flake() {
    assert_eq!(GIT_MARKER, ".git");
    assert_eq!(FLAKE_MARKER, "flake.nix");
}

#[test]
fn test_find_flake_projects_empty_directory() {
    let mut fs = HashMap::new();
    fs.insert("/t".to_string(), dir(false, vec![]));
    assert_eq!(scan(&fs, "/t").len(), 0);
}

#[test]
fn test_find_flake_projects_single_flake() {
    let mut fs = HashMap::new();
    fs.insert("/t".to_string(), dir(true, vec![(FLAKE_MARKER, false)]));
    assert_eq!(scan(&fs, "/t"), vec!["/t".to_string()]);
}

#[test]
fn test_find_flake_projects_nested_flakes() {
    let mut fs = HashMap::new();
    fs.insert("/t".to_string(), dir(false, vec![("project1", true), ("project2", true), ("nested", true)]));
    fs.insert("/t/project1".to_string(), dir(true, vec![(FLAKE_MARKER, false)]));
    fs.insert("/t/project2".to_string(), dir(true, vec![(FLAKE_MARKER, false)]));
    fs.insert("/t/nested".to_string(), dir(false, vec![("deep", true)]));
    fs.insert("/t/nested/deep".to_string(), dir(true, vec![(FLAKE_MARKER, false)]));
    assert_eq!(scan(&fs, "/t").len(), 3);
}

#[test]
fn test_find_flake_projects_ignores_hidden_dirs() {
    let mut fs = HashMap::new();
    fs.insert("/t".to_string(), dir(false, vec![(".hidden", true), ("normal", true)]));
    fs.insert("/t/.hidden".to_string(), dir(true, vec![(FLAKE_MARKER, false)]));
    fs.insert("/t/normal".to_string(), dir(true, vec![(FLAKE_MARKER, false)]));
    let found = scan(&fs, "/t");
    assert_eq!(found.len(), 1);
    assert_eq!(found[0], "/t/normal");
}

#[test]
fn test_find_flake_projects_nonexistent_directory() {
    let fs = HashMap::new();
    assert_eq!(scan(&fs, "/nonexistent/path").len(), 0);
}

#[test]
fn test_very_deep_directory_structure() {
    let mut fs = HashMap::new();
    let mut path = "/t".to_string();
    for i in 0..100 {
        let name: &'static str = Box::leak(format!("level_{}", i).into_boxed_str());
        fs.insert(path.clone(), dir(false, vec![(name, true)]));
        path = format!("{}/{}", path, name);
    }
    fs.insert(path.clone(), dir(true, vec![(".git", true)]));
    assert_eq!(scan(&fs, "/t"), vec![path]);
}

#[test]
fn test_permission_denied_directory() {
    let mut scanner = Scanner::new("/t/restricted".to_string());
    let root = scanner.next_dir().unwrap();
    let diagnostic = scanner.record(
        root,
        DirVisit {
            has_marker: false,
            listing: Listing::Unreadable("Permission denied (os error 13)".to_string()),
        },
    );
    assert_eq!(
        diagnostic.as_deref(),
        Some("Cannot read directory /t/restricted: Permission denied (os error 13)")
    );
    assert!(diagnostic.unwrap().contains("Permission denied"));
    assert!(scanner.is_done());
    assert!(scanner.into_found().is_empty());
}
