use git_workspace::archive::{
    archive_destination, archive_directory_name, check_snapshot,
    get_all_repositories_to_archive, is_ancestor_path, DirEntry,
};
use git_workspace::progress::progress_message;
use git_workspace::repository::Repository;

fn dir(path: &str, has_git: bool) -> DirEntry {
    DirEntry { path: path.to_string(), has_git }
}

fn s(x: &str) -> String {
    x.to_string()
}

#[test]
fn ancestor_relation_respects_separators() {
    assert!(is_ancestor_path("a", "a/x"));
    assert!(is_ancestor_path("", "a"));
    assert!(is_ancestor_path("a/x", "a/x/deep"));
    assert!(!is_ancestor_path("a/x", "a/x"));
    assert!(!is_ancestor_path("a/x", "a/xy"));
    assert!(!is_ancestor_path("b", "a/x"));
}

#[test]
fn archive_moves_only_the_orphan() {
    // Tracked checkouts at a/x and a/y, an untracked checkout at b/z: the
    // forced archive moves b/z below the archive root and nothing else.
    let snapshot = vec![
        dir("", false),
        dir(".archive", false),
        dir("a", false),
        dir("a/x", true),
        dir("a/y", true),
        dir("b", false),
        dir("b/z", true),
    ];
    let safe = vec![s("a/x"), s("a/y"), s(".archive")];
    let moves = get_all_repositories_to_archive(&snapshot, &safe, archive_directory_name());
    assert_eq!(moves.len(), 1);
    assert_eq!(moves[0].0, "b/z");
    assert_eq!(moves[0].1, ".archive/b/z");
}

#[test]
fn archive_never_splits_a_nested_checkout() {
    // A checkout nested inside an orphaned checkout moves with its parent,
    // never separately.
    let snapshot = vec![
        dir("", false),
        dir(".archive", false),
        dir("b", false),
        dir("b/z", true),
        dir("b/z/vendor", false),
        dir("b/z/vendor/inner", true),
    ];
    let safe = vec![s(".archive")];
    let moves = get_all_repositories_to_archive(&snapshot, &safe, archive_directory_name());
    assert_eq!(moves.len(), 1);
    assert_eq!(moves[0].0, "b/z");
}

#[test]
fn archive_leaves_archived_content_alone() {
    // Re-running right after a pass: the moved checkout now lives below
    // the archive root, which is pruned, so nothing moves again.
    let snapshot = vec![
        dir("", false),
        dir(".archive", false),
        dir(".archive/b", false),
        dir(".archive/b/z", true),
        dir("a", false),
        dir("a/x", true),
        dir("b", false),
    ];
    let safe = vec![s("a/x"), s(".archive")];
    let moves = get_all_repositories_to_archive(&snapshot, &safe, archive_directory_name());
    assert_eq!(moves.len(), 0);
}

#[test]
fn archive_respects_the_safe_set() {
    // A checkout in the safe set stays, even while its sibling moves.
    let snapshot = vec![
        dir("", false),
        dir(".archive", false),
        dir("a", false),
        dir("a/x", true),
        dir("a/y", true),
    ];
    let safe = vec![s("a/x"), s(".archive")];
    let moves = get_all_repositories_to_archive(&snapshot, &safe, archive_directory_name());
    assert_eq!(moves.len(), 1);
    assert_eq!(moves[0].0, "a/y");
}

#[test]
fn destination_mirrors_the_relative_path() {
    assert_eq!(archive_destination(".archive", "github/owner/repo"), ".archive/github/owner/repo");
}

#[test]
fn repository_presence_in_a_snapshot() {
    let snapshot = vec![dir("", false), dir("a", false), dir("a/x", true), dir("a/y", false)];
    let there = Repository::new(s("a/x"), s("u1"), None, None);
    let gone = Repository::new(s("a/z"), s("u2"), None, None);
    let no_git = Repository::new(s("a/y"), s("u3"), None, None);
    assert!(there.exists_at(&snapshot));
    assert!(!gone.exists_at(&snapshot));
    assert!(!no_git.exists_at(&snapshot));
    assert_eq!(there.get_path("/ws"), "/ws/a/x");
    assert_eq!(there.name(), "a/x");
}

#[test]
fn progress_text_is_cleaned_and_cut() {
    // colour codes go, line breaks become spaces, blanks are trimmed
    let msg = progress_message("a/x", "\u{1b}[2K  counting\nobjects  ");
    assert_eq!(msg, "a/x: counting objects");
    // a long status line is cut to the display width with a tail
    let long = "x".repeat(200);
    let cut = progress_message("a/x", &long);
    assert!(cut.len() < 100);
    assert!(cut.ends_with("..."));
    assert!(cut.starts_with("a/x: xxx"));
}

#[test]
fn snapshot_check_requires_parents_first() {
    let good = vec![dir("", false), dir("a", false), dir("a/x", true)];
    assert!(check_snapshot(&good));
    let child_first = vec![dir("", false), dir("a/x", true), dir("a", false)];
    assert!(!check_snapshot(&child_first));
    let duplicated = vec![dir("", false), dir("a", false), dir("a", true)];
    assert!(!check_snapshot(&duplicated));
}
