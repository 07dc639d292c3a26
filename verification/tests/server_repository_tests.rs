use workspace_fs::path::WorkspacePath;
use workspace_fs::server::config::{IgnoreConfig, PluginConfig, RepositoryConfig};
use workspace_fs::server::repository::{
    directory_listing, parent_verdict, symlink_probes, symlink_verdict, target_verdict, EntryState,
    FsRepository, ProbeState, RepositoryError, RepositoryOp,
};
use workspace_fs::settings::ServeSettings;

fn test_config() -> RepositoryConfig {
    RepositoryConfig {
        name: "repo".to_string(),
        serve: ServeSettings::default(),
        policy: Vec::new(),
        ignore: IgnoreConfig { paths: Vec::new() },
        plugin: Vec::new(),
    }
}

fn symlink_ancestor_error(path: &str) -> RepositoryError {
    let repository = FsRepository::new("/tmp/ws-root", &test_config());
    let resolved = repository
        .resolve_path(&WorkspacePath::from_path_str(path).unwrap())
        .unwrap();
    let probes = symlink_probes(&repository.repository_root, &resolved);
    assert_eq!(
        probes,
        vec![
            "/tmp/ws-root".to_string(),
            "/tmp/ws-root/secret".to_string(),
            format!("/tmp/ws-root/{path}"),
        ]
    );
    let states = vec![ProbeState::Present, ProbeState::Symlink, ProbeState::Present];
    symlink_verdict(&states).unwrap_err()
}

#[test]
fn fs_repository_read_file_rejects_symlink_ancestor() {
    let error = symlink_ancestor_error("secret/secret.txt");

    assert!(error.message().contains("symlink path is not allowed"));
}

#[test]
fn fs_repository_write_text_file_rejects_symlink_ancestor() {
    let error = symlink_ancestor_error("secret/target.txt");

    assert!(error.message().contains("symlink path is not allowed"));
}

#[test]
fn repository_read_file_rejects_symlink_ancestor() {
    let error = symlink_ancestor_error("secret/secret.txt");

    assert!(error.message().contains("symlink path is not allowed"));
}

#[test]
fn repository_write_text_file_rejects_symlink_ancestor() {
    let error = symlink_ancestor_error("secret/target.txt");

    assert!(error.message().contains("symlink path is not allowed"));
}

#[test]
fn fs_repository_reserved_virtual_prefix_is_rejected_as_repository_path() {
    let repository = FsRepository::new("/tmp/ws-root", &test_config());
    let error = repository
        .resolve_path(&WorkspacePath::from_path_str(".info/cache.txt").unwrap())
        .unwrap_err();

    assert!(error.message().contains("reserved path"));
}

#[test]
fn repository_reserved_virtual_prefix_is_rejected_as_repository_path() {
    let repository = FsRepository::new("/tmp/ws-root", &test_config());
    let error = repository
        .resolve_path(&WorkspacePath::from_path_str(".repo/config.toml").unwrap())
        .unwrap_err();

    assert!(error.message().contains("reserved path"));
}

#[test]
fn symlink_check_stops_at_missing_path_and_reports_failures() {
    assert!(symlink_verdict(&vec![ProbeState::Present, ProbeState::Missing, ProbeState::Symlink]).is_ok());
    assert_eq!(
        symlink_verdict(&vec![ProbeState::Symlink]).unwrap_err(),
        RepositoryError::SymlinkPathNotAllowed
    );
    assert!(symlink_verdict(&vec![ProbeState::Failed("x".to_string()), ProbeState::Present]).is_ok());
    assert_eq!(
        symlink_verdict(&vec![ProbeState::Present, ProbeState::Failed("denied".to_string())])
            .unwrap_err()
            .message(),
        "failed to inspect path: denied"
    );
}

#[test]
fn mounted_paths_resolve_into_plugin_output() {
    let mut config = test_config();
    config.plugin.push(PluginConfig {
        name: "assets".to_string(),
        runner: "command".to_string(),
        command: vec!["echo".to_string()],
        allow: Vec::new(),
        mount: Some("/assets/".to_string()),
        extra: Vec::new(),
    });
    let repository = FsRepository::new("/srv/repo", &config);

    let resolved = repository
        .resolve_path(&WorkspacePath::from_path_str("assets/app.js").unwrap())
        .unwrap();
    assert_eq!(resolved.path, "/srv/repo/.repo/assets/generated/app.js");
    assert_eq!(resolved.relative, vec![".repo", "assets", "generated", "app.js"]);

    let plain = repository
        .resolve_path(&WorkspacePath::from_path_str("docs/a.md").unwrap())
        .unwrap();
    assert_eq!(plain.path, "/srv/repo/docs/a.md");
}

#[test]
fn target_verdicts_follow_the_operation() {
    assert_eq!(
        target_verdict(RepositoryOp::CreateFile, true, false, false).unwrap_err(),
        RepositoryError::FileAlreadyExists
    );
    assert_eq!(
        target_verdict(RepositoryOp::ReadFile, false, false, false).unwrap_err(),
        RepositoryError::FileNotFound
    );
    assert_eq!(
        target_verdict(RepositoryOp::DeleteDirectory, true, true, true).unwrap_err(),
        RepositoryError::DirectoryNotEmpty
    );
    assert!(target_verdict(RepositoryOp::DeleteDirectory, true, true, false).is_ok());
    assert!(target_verdict(RepositoryOp::CreateDirectory, false, false, false).is_ok());
}

#[test]
fn parent_verdicts() {
    assert_eq!(parent_verdict(false, &Ok(false)).unwrap_err(), RepositoryError::ParentDirectoryNotFound);
    assert_eq!(parent_verdict(true, &Ok(false)).unwrap_err(), RepositoryError::ParentPathNotDirectory);
    assert!(parent_verdict(true, &Ok(true)).is_ok());
}

#[test]
fn directory_listing_sorts_and_marks_directories() {
    let listing = directory_listing(&vec![
        EntryState::Named { name: "b.md".to_string(), is_dir: false },
        EntryState::Named { name: "a".to_string(), is_dir: true },
        EntryState::Named { name: "C.txt".to_string(), is_dir: false },
    ])
    .unwrap();

    assert_eq!(listing, vec!["C.txt", "a/", "b.md"]);
}

#[test]
fn directory_listing_reports_first_failure() {
    let error = directory_listing(&vec![
        EntryState::Named { name: "a".to_string(), is_dir: false },
        EntryState::Symlink,
        EntryState::NoName,
    ])
    .unwrap_err();

    assert_eq!(error, RepositoryError::SymlinkPathNotAllowed);
    assert_eq!(
        parent_verdict(true, &Err("io".to_string())).unwrap_err().message(),
        "failed to inspect parent directory: io"
    );
}
