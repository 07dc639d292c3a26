use workspace_fs::path::{PathError, WorkspacePath};

#[test]
fn from_url_rejects_reserved_paths() {
    let error = WorkspacePath::from_url("/.repo/config.toml").unwrap_err();

    assert!(error.message().contains("reserved path"));
}

#[test]
fn from_url_requires_leading_slash() {
    let error = WorkspacePath::from_url("docs/a.md").unwrap_err();

    assert!(error.message().contains("URL path must start with /"));
}

#[test]
fn from_url_strips_leading_slash() {
    let normalized = WorkspacePath::from_url("/docs/").unwrap();

    assert_eq!(normalized.as_str(), "docs");
    assert!(normalized.is_directory());
}

#[test]
fn from_url_root_uses_dot() {
    let normalized = WorkspacePath::from_url("/").unwrap();

    assert_eq!(normalized.as_str(), ".");
    assert!(normalized.is_directory());
}

#[test]
fn from_url_preserves_directory_suffix() {
    let normalized = WorkspacePath::from_url("/docs/").unwrap();

    assert_eq!(normalized.as_str(), "docs");
    assert!(normalized.is_directory());
}

#[test]
fn from_url_rejects_whitespace_only_input() {
    let error = WorkspacePath::from_url("   ").unwrap_err();

    assert!(error.message().contains("URL path must start with /"));
}

#[test]
fn from_url_rejects_parent_components() {
    let error = WorkspacePath::from_url("/docs/../secret").unwrap_err();

    assert_eq!(error, PathError::PathEscapesRepositoryRoot);
    assert_eq!(error.message(), "path escapes repository root");
}

#[test]
fn from_url_rejects_empty_path_after_slashes() {
    let error = WorkspacePath::from_url("//").unwrap_err();

    assert_eq!(error, PathError::PathRequired);
    assert_eq!(error.message(), "path is required");
}

#[test]
fn from_path_str_rejects_absolute_paths() {
    let error = WorkspacePath::from_path_str("/viewer/").unwrap_err();

    assert_eq!(error, PathError::AbsolutePathNotAllowed);
    assert!(error.message().contains("absolute paths are not allowed"));
}

#[test]
fn from_path_str_normalises_dots_and_slashes() {
    let path = WorkspacePath::from_path_str("  ./docs//a/./b.md  ").unwrap();

    assert_eq!(path.as_str(), "docs/a/b.md");
    assert!(!path.is_directory());
    assert_eq!(path.depth(), 3);
}

#[test]
fn from_path_str_of_empty_text_is_the_root() {
    let path = WorkspacePath::from_path_str("   ").unwrap();

    assert_eq!(path.as_str(), ".");
    assert!(!path.is_directory());
    assert_eq!(path.depth(), 0);
}

#[test]
fn path_text_reads_back_as_the_same_path() {
    let path = WorkspacePath::from_path_str("docs/guide/intro.md").unwrap();
    let again = WorkspacePath::from_path_str(path.as_str()).unwrap();

    assert_eq!(again.as_str(), path.as_str());
    assert_eq!(again.depth(), path.depth());
}

#[test]
fn padded_component_does_not_read_back() {
    let path = WorkspacePath::from_path_str("docs/ a").unwrap();
    let inner = WorkspacePath::from_path_str(" a").unwrap();

    assert_eq!(path.as_str(), "docs/ a");
    assert_eq!(inner.as_str(), "a");
}

#[test]
fn starts_with_compares_components() {
    let docs = WorkspacePath::from_path_str("docs").unwrap();
    let file = WorkspacePath::from_path_str("docs/a.md").unwrap();
    let other = WorkspacePath::from_path_str("docsx/a.md").unwrap();
    let root = WorkspacePath::from_path_str(".").unwrap();

    assert!(file.starts_with(&docs));
    assert!(!other.starts_with(&docs));
    assert!(!file.starts_with(&root));
    assert!(root.starts_with(&root));
}

#[test]
fn strip_prefix_gives_the_remaining_components() {
    let docs = WorkspacePath::from_path_str("docs").unwrap();
    let file = WorkspacePath::from_path_str("docs/a/b.md").unwrap();
    let other = WorkspacePath::from_path_str("notes/b.md").unwrap();

    assert_eq!(file.strip_prefix(&docs).as_deref(), Some("a/b.md"));
    assert_eq!(other.strip_prefix(&docs), None);
}

#[test]
fn reserved_paths_start_with_repo_directory() {
    assert!(WorkspacePath::from_path_str(".repo/config.toml").unwrap().is_reserved());
    assert!(!WorkspacePath::from_path_str("docs/.repo").unwrap().is_reserved());
}

#[test]
fn join_to_appends_the_path_text() {
    let file = WorkspacePath::from_path_str("docs/a.md").unwrap();

    assert_eq!(file.join_to("/repo"), "/repo/docs/a.md");
    assert_eq!(file.join_to("/repo/"), "/repo/docs/a.md");
}
