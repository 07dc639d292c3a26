use workspace_fs::info::PathInfoKind;
use workspace_fs::path::WorkspacePath;
use workspace_fs::policy::MethodKind;
use workspace_fs::server::config::{IgnoreConfig, PluginConfig, RepositoryConfig};
use workspace_fs::server::identity::UserIdentity;
use workspace_fs::server::plugin::{expand_placeholder, resolved_plugin_settings, PluginContext, PluginRunner};
use workspace_fs::server::policy::{Policy, PolicyPermissions};
use workspace_fs::server::repository::FsRepository;
use workspace_fs::server::service::{check_path_kind, child_path, join_lines, reject_directory_path, WorkspaceService};
use workspace_fs::setting_value::SettingValue;
use workspace_fs::settings::ServeSettings;

fn test_config_with_ignore(paths: &[&str]) -> RepositoryConfig {
    RepositoryConfig {
        name: "repo".to_string(),
        serve: ServeSettings::default(),
        policy: vec![Policy {
            path: WorkspacePath::from_path_str(".").unwrap(),
            permissions: PolicyPermissions {
                get: vec!["alice_browser".to_string()],
                post: Vec::new(),
                put: Vec::new(),
                delete: Vec::new(),
            },
        }],
        ignore: IgnoreConfig {
            paths: paths.iter().map(|p| WorkspacePath::from_path_str(p).unwrap()).collect(),
        },
        plugin: vec![PluginConfig {
            name: "preview".to_string(),
            runner: "command".to_string(),
            command: vec!["echo".to_string(), "{OUTPUT_DIRECTORY}".to_string()],
            allow: vec!["alice_browser".to_string()],
            mount: Some("/preview/".to_string()),
            extra: Vec::new(),
        }],
    }
}

fn service(paths: &[&str]) -> WorkspaceService {
    let config = test_config_with_ignore(paths);
    let repository = FsRepository::new("/tmp/ws-service", &config);
    WorkspaceService::new(repository, test_config_with_ignore(paths))
}

fn check_ignore_hides_entries() {
    let workspace = service(&[".git", "LICENSE"]);
    let user = UserIdentity::new("alice_browser");

    let root = workspace.authorized_path("/", MethodKind::Get, &user).unwrap();
    let kept = workspace
        .filter_ignored_entries(
            &root,
            vec![".git/".to_string(), "LICENSE".to_string(), "README.md".to_string()],
        )
        .unwrap();
    let listing = join_lines(&kept);

    assert!(listing.contains("README.md"));
    assert!(!listing.contains(".git/"));
    assert!(!listing.contains("LICENSE"));

    let git_error = workspace.authorized_path("/.git/", MethodKind::Get, &user).unwrap_err();
    assert_eq!(git_error.status, 403);
    let license_error = workspace.authorized_path("/LICENSE", MethodKind::Get, &user).unwrap_err();
    assert_eq!(license_error.status, 403);
}

#[test]
fn workspace_service_ignore_hides_listing_entries_and_rejects_direct_access() {
    check_ignore_hides_entries();
}

#[test]
fn workspace_ignore_hides_listing_entries_and_rejects_direct_access() {
    check_ignore_hides_entries();
}

#[test]
fn policy_denies_unlisted_identities_and_methods() {
    let workspace = service(&[]);
    let alice = UserIdentity::new("alice_browser");
    let bob = UserIdentity::new("bob");

    assert!(workspace.authorized_path("/docs/a.md", MethodKind::Get, &alice).is_ok());
    let denied = workspace.authorized_path("/docs/a.md", MethodKind::Get, &bob).unwrap_err();
    assert_eq!(denied.status, 403);
    assert_eq!(denied.message, "operation denied by policy");
    assert_eq!(
        workspace.authorized_path("/docs/a.md", MethodKind::Put, &alice).unwrap_err().status,
        403
    );
    let bad = workspace.authorized_path("docs/a.md", MethodKind::Get, &alice).unwrap_err();
    assert_eq!(bad.status, 400);
    assert_eq!(bad.message, "URL path must start with /");
}

#[test]
fn plugin_runs_are_authorized_by_allow_list() {
    let workspace = service(&[]);

    assert_eq!(
        workspace.authorize_plugin_run("preview", &UserIdentity::new("alice_browser")).unwrap(),
        0
    );
    assert_eq!(
        workspace.authorize_plugin_run("preview", &UserIdentity::new("bob")).unwrap_err().status,
        403
    );
    assert_eq!(
        workspace.authorize_plugin_run("missing", &UserIdentity::new("alice_browser")).unwrap_err().status,
        404
    );
}

#[test]
fn directory_and_file_paths_are_checked() {
    let dir = WorkspacePath::from_url("/docs/").unwrap();
    let file = WorkspacePath::from_url("/docs/a.md").unwrap();

    assert_eq!(reject_directory_path(&dir, "not a file").unwrap_err().status, 400);
    assert!(reject_directory_path(&file, "not a file").is_ok());
    assert!(check_path_kind(&dir, PathInfoKind::Directory).is_ok());
    assert_eq!(check_path_kind(&file, PathInfoKind::Directory).unwrap_err().status, 400);
    assert_eq!(child_path(&dir, "b.md").unwrap().as_str(), "docs/b.md");
}

fn plugin_context() -> PluginContext {
    PluginContext {
        repository_root: "/repo".to_string(),
        repository_name: "repo".to_string(),
        plugin_name: "plugin".to_string(),
        output_directory: "/repo/.repo/plugin/generated".to_string(),
        cache_directory: "/repo/.repo/plugin/cache".to_string(),
        mount_url: Some("/plugin-assets/".to_string()),
        user_identity: UserIdentity::new("user"),
        workspace_fs_root: "/opt/workspace_fs".to_string(),
    }
}

#[test]
fn expand_placeholder_replaces_common_values() {
    let value = expand_placeholder(
        "{REPOSITORY_ROOT}:{REPOSITORY_NAME}:{PLUGIN_NAME}:{OUTPUT_DIRECTORY}:{MOUNT_URL}",
        &plugin_context(),
    )
    .unwrap();

    assert_eq!(value, "/repo:repo:plugin:/repo/.repo/plugin/generated:/plugin-assets/");
}

#[test]
fn server_settings_expand_mount_url() {
    let plugin = PluginConfig {
        name: "plugin".to_string(),
        runner: "command".to_string(),
        command: vec!["echo".to_string()],
        allow: vec!["user".to_string()],
        mount: Some("/plugin-assets/".to_string()),
        extra: vec![(
            "md_preview".to_string(),
            SettingValue::Table(vec![(
                "enhance".to_string(),
                SettingValue::Array(vec![SettingValue::Table(vec![
                    ("name".to_string(), SettingValue::String("embedded-models".to_string())),
                    ("url".to_string(), SettingValue::String("{MOUNT_URL}enhance.js".to_string())),
                ])]),
            )]),
        )],
    };

    let settings = resolved_plugin_settings(&plugin, &plugin_context()).unwrap();

    match &settings[0].1 {
        SettingValue::Table(entries) => match &entries[0].1 {
            SettingValue::Array(items) => match &items[0] {
                SettingValue::Table(fields) => match &fields[1].1 {
                    SettingValue::String(url) => assert_eq!(url, "/plugin-assets/enhance.js"),
                    other => panic!("unexpected value {other:?}"),
                },
                other => panic!("unexpected value {other:?}"),
            },
            other => panic!("unexpected value {other:?}"),
        },
        other => panic!("unexpected value {other:?}"),
    }
}

#[test]
fn plugin_invocation_expands_the_command() {
    let config = test_config_with_ignore(&[]);
    let defaults = Vec::new();
    let runner = PluginRunner::new("/repo", "repo", &config, "/opt/workspace_fs", &defaults);
    let (index, context) = runner
        .plugin_context("preview", &UserIdentity::new("alice_browser"))
        .unwrap();
    assert_eq!(index, 0);

    assert_eq!(context.output_directory, "/repo/.repo/preview/generated");
    assert_eq!(context.cache_directory, "/repo/.repo/preview/cache");

    let invocation = runner.invocation(&config.plugin[0], &context).unwrap();
    assert_eq!(invocation.program, "echo");
    assert_eq!(invocation.args, vec!["/repo/.repo/preview/generated"]);
    assert_eq!(invocation.current_dir, "/repo");
    assert!(invocation
        .env
        .iter()
        .any(|(k, v)| k == "WORKSPACE_FS_USER_IDENTITY" && v == "alice_browser"));
    assert!(invocation.env.iter().any(|(k, v)| k == "MOUNT_URL" && v == "/preview/"));
}
