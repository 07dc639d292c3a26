use workspace_fs::hooks::config::{
    default_policy_get, PluginConfig, Policy, PolicyPermissions, RepositoryConfig, TaskConfig,
};
use workspace_fs::path::WorkspacePath;
use workspace_fs::settings::{ConfigError, ServeSettings};

fn plugin(name: &str, trigger: &str, path: Option<&str>, deps: &[&str], mount: Option<&str>) -> PluginConfig {
    PluginConfig {
        name: name.to_string(),
        runner: "command".to_string(),
        command: vec!["echo".to_string()],
        trigger: trigger.to_string(),
        path: path.map(|p| WorkspacePath::from_path_str(p).unwrap()),
        deps: deps.iter().map(|d| d.to_string()).collect(),
        mount: mount.map(|m| m.to_string()),
        extra: Vec::new(),
    }
}

fn config(serve: ServeSettings, policy: Vec<Policy>, plugins: Vec<PluginConfig>) -> RepositoryConfig {
    RepositoryConfig {
        name: "repo".to_string(),
        serve,
        policy,
        plugin: plugins,
        task: Vec::<TaskConfig>::new(),
    }
}

fn validate(config: &RepositoryConfig) -> Result<(), ConfigError> {
    config.validate(&vec![false; config.plugin.len()])
}

fn serve(plugin: &str, policy: &str, info: &str) -> ServeSettings {
    ServeSettings {
        port: 3000,
        plugin_url_prefix: plugin.to_string(),
        policy_url_prefix: policy.to_string(),
        info_url_prefix: info.to_string(),
    }
}

#[test]
fn policy_rule_defaults_get_only() {
    let path = WorkspacePath::from_path_str("docs/").unwrap();
    let rule = Policy {
        path,
        permissions: PolicyPermissions {
            get: default_policy_get(),
            post: false,
            put: false,
            delete: false,
        },
    };

    assert_eq!(rule.path.as_str(), "docs");
    assert!(rule.path.is_directory());
    assert!(rule.permissions.get);
    assert!(!rule.permissions.post);
    assert!(!rule.permissions.put);
    assert!(!rule.permissions.delete);
}

#[test]
fn config_serve_settings_defaults_prefixes() {
    let settings = ServeSettings::default();

    assert_eq!(settings.port, 3000);
    assert_eq!(settings.plugin_url_prefix, "/.plugin");
    assert_eq!(settings.policy_url_prefix, "/.policy");
    assert_eq!(settings.info_url_prefix, "/.info");
}

#[test]
fn config_repository_config_rejects_prefix_without_leading_slash() {
    let config = config(serve(".plugin", "/.policy", "/.info"), Vec::new(), Vec::new());

    let error = validate(&config).unwrap_err();

    assert!(error.message().contains("serve.plugin_url_prefix must start with /"));
}

#[test]
fn config_repository_config_rejects_prefix_with_trailing_slash() {
    let config = config(serve("/.plugin/", "/.policy/", "/.info"), Vec::new(), Vec::new());

    let error = validate(&config).unwrap_err();

    assert!(error.message().contains(
        "serve.plugin_url_prefix must start with /, must not be empty, and must not end with /"
    ));
}

#[test]
fn config_repository_config_rejects_duplicate_virtual_prefixes() {
    let config = config(serve("/.plugin", "/.policy", "/.policy"), Vec::new(), Vec::new());

    let error = validate(&config).unwrap_err();

    assert!(error
        .message()
        .contains("serve.policy_url_prefix and serve.info_url_prefix must be different"));
}

#[test]
fn config_repository_config_rejects_policy_path_with_leading_slash() {
    let error = WorkspacePath::from_path_str("/viewer/").unwrap_err();

    assert!(error.message().contains("absolute paths are not allowed"));
}

#[test]
fn config_repository_config_rejects_policy_path_with_glob_syntax() {
    let config = config(
        ServeSettings::default(),
        vec![Policy {
            path: WorkspacePath::from_path_str("viewer/**").unwrap(),
            permissions: PolicyPermissions {
                get: true,
                post: false,
                put: false,
                delete: false,
            },
        }],
        Vec::new(),
    );

    let error = validate(&config).unwrap_err();

    assert!(error.message().contains("policy path must not use glob syntax"));
}

#[test]
fn config_mount_inserts_implicit_get_only_policy_before_explicit_rules() {
    let mut config = config(
        ServeSettings::default(),
        vec![Policy {
            path: WorkspacePath::from_path_str("assets/").unwrap(),
            permissions: PolicyPermissions::deny_all(),
        }],
        vec![plugin("assets", "manual", None, &[], Some("/assets/"))],
    );

    config.insert_implicit_mount_policies().unwrap();

    assert_eq!(config.policy.len(), 2);
    assert_eq!(config.policy[0].path.as_str(), "assets");
    assert!(config.policy[0].permissions.get);
    assert!(!config.policy[0].permissions.post);
    assert_eq!(config.policy[1].path.as_str(), "assets");
    assert!(!config.policy[1].permissions.get);
}

#[test]
fn config_repository_config_rejects_invalid_plugin_name() {
    let config = config(
        ServeSettings::default(),
        Vec::new(),
        vec![plugin("bad.name", "manual", None, &[], None)],
    );

    let error = validate(&config).unwrap_err();

    assert!(error.message().contains("plugin name must match"));
}

#[test]
fn repository_config_rejects_missing_plugin_dependency() {
    let config = config(
        ServeSettings::default(),
        Vec::new(),
        vec![plugin("preview", "manual", None, &["build-wasm"], None)],
    );

    let error = validate(&config).unwrap_err();

    assert!(error.message().contains("plugin dependency not found"));
}

#[test]
fn config_repository_config_rejects_policy_path_under_reserved_url_prefix() {
    let config = config(
        ServeSettings::default(),
        vec![Policy {
            path: WorkspacePath::from_path_str(".info/cache.txt").unwrap(),
            permissions: PolicyPermissions {
                get: true,
                post: false,
                put: false,
                delete: false,
            },
        }],
        Vec::new(),
    );

    let error = validate(&config).unwrap_err();

    assert!(error.message().contains("policy path must not target reserved url prefix"));
}

#[test]
fn repository_config_requires_path_for_non_manual_plugin() {
    let config = config(
        ServeSettings::default(),
        Vec::new(),
        vec![plugin("preview", "GET", None, &[], None)],
    );

    let error = validate(&config).unwrap_err();

    assert!(error.message().contains("non-manual plugin must set path"));
}

#[test]
fn repository_config_rejects_manual_plugin_path() {
    let config = config(
        ServeSettings::default(),
        Vec::new(),
        vec![plugin("preview", "manual", Some("docs/"), &[], None)],
    );

    let error = validate(&config).unwrap_err();

    assert!(error.message().contains("manual plugin must not set path"));
}

#[test]
fn hook_config_accepts_valid_plugins_and_dependencies() {
    let config = config(
        ServeSettings::default(),
        vec![Policy {
            path: WorkspacePath::from_path_str("docs/").unwrap(),
            permissions: PolicyPermissions::deny_all(),
        }],
        vec![
            plugin("build-wasm", "manual", None, &[], Some("/wasm/")),
            plugin("md-preview", "GET", Some("docs/"), &["build-wasm"], None),
        ],
    );

    assert!(validate(&config).is_ok());
}

#[test]
fn hook_config_rejects_empty_name_and_self_dependency() {
    let mut unnamed = config(ServeSettings::default(), Vec::new(), Vec::new());
    unnamed.name = String::new();
    assert_eq!(validate(&unnamed).unwrap_err().message(), "name must not be empty");

    let selfish = config(
        ServeSettings::default(),
        Vec::new(),
        vec![plugin("loop", "manual", None, &["loop"], None)],
    );
    assert!(matches!(validate(&selfish).unwrap_err(), ConfigError::SelfDependency(_)));
}

#[test]
fn hook_config_rejects_policy_under_repo_directory() {
    let config = config(
        ServeSettings::default(),
        vec![Policy {
            path: WorkspacePath::from_path_str(".repo/config.toml").unwrap(),
            permissions: PolicyPermissions::deny_all(),
        }],
        Vec::new(),
    );

    assert_eq!(validate(&config).unwrap_err().message(), "policy path must not target .repo/");
}

#[test]
fn hook_config_finds_plugins_and_tasks_by_name() {
    let mut config = config(
        ServeSettings::default(),
        Vec::new(),
        vec![
            plugin("a", "manual", None, &[], None),
            plugin("b", "manual", None, &[], None),
        ],
    );
    config.task.push(TaskConfig {
        name: "build".to_string(),
        steps: vec!["b".to_string()],
    });

    assert_eq!(config.find_plugin_index("b"), Some(1));
    assert_eq!(config.find_plugin_index("c"), None);
    assert_eq!(config.find_plugin("a").map(|p| p.name.as_str()), Some("a"));
    assert_eq!(config.find_task("build").map(|t| t.steps.len()), Some(1));
    assert!(config.find_task("other").is_none());
}

#[test]
fn hook_server_command_line() {
    use_cli();
}

fn use_cli() {
    let args = |list: &[&str]| list.iter().map(|a| a.to_string()).collect::<Vec<String>>();

    let plain = workspace_fs::hooks::cli::parse_cli_options(&args(&["./repo"])).unwrap();
    assert_eq!(plain.repository_path, "./repo");
    assert!(plain.task.is_none());

    let with_task =
        workspace_fs::hooks::cli::parse_cli_options(&args(&["./repo", "--task", "a", "--task", "b"])).unwrap();
    assert_eq!(with_task.task.as_deref(), Some("b"));

    assert_eq!(
        workspace_fs::hooks::cli::parse_cli_options(&args(&[])).unwrap_err().message(),
        "usage: workspace_fs <repository-path> [--task <name>]"
    );
    assert_eq!(
        workspace_fs::hooks::cli::parse_cli_options(&args(&["./repo", "--task"])).unwrap_err().message(),
        "missing value for --task"
    );
    assert_eq!(
        workspace_fs::hooks::cli::parse_cli_options(&args(&["./repo", "--port=1"])).unwrap_err().message(),
        "unknown argument: --port=1"
    );
}
