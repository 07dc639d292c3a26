use workspace_fs::info::{PathInfo, PathInfoKind};

#[test]
fn builds_file_info() {
    let info = PathInfo::new("docs/a.md", PathInfoKind::File, Some(42), Some(0), false);

    assert_eq!(info.path, "docs/a.md");
    assert_eq!(info.kind, PathInfoKind::File);
    assert_eq!(info.size, Some(42));
    assert_eq!(info.modified_at.as_deref(), Some("1970-01-01T00:00:00Z"));
    assert!(!info.readonly);
}

#[test]
fn workspace_service_path_info_requires_directory_suffix_for_directories() {
    let info = PathInfo::new("docs", PathInfoKind::Directory, None, None, false);

    assert_eq!(info.kind, PathInfoKind::Directory);
}

#[test]
fn workspace_path_info_requires_directory_suffix_for_directories() {
    let info = PathInfo::new("docs", PathInfoKind::Directory, None, None, false);

    assert_eq!(info.kind, PathInfoKind::Directory);
}

#[test]
fn path_info_formats_modification_time() {
    let info = PathInfo::new(
        "docs/b.md",
        PathInfoKind::File,
        Some(1),
        Some(1_700_000_000_500_000_000),
        true,
    );

    assert_eq!(info.modified_at.as_deref(), Some("2023-11-14T22:13:20.5Z"));
    assert!(info.readonly);
}

#[test]
fn path_info_without_time_has_none() {
    let info = PathInfo::new("docs", PathInfoKind::Directory, None, None, false);

    assert_eq!(info.modified_at, None);
    assert_eq!(info.size, None);
}
