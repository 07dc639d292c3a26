use workspace_fs::path::WorkspacePath;
use workspace_fs::server::config::{IgnoreConfig, PluginConfig, RepositoryConfig};
use workspace_fs::server::policy::{Policy, PolicyPermissions};
use workspace_fs::settings::{ConfigError, ServeSettings, ServeSettingsOverride};

fn plugin(name: &str, runner: &str, command: &[&str], mount: Option<&str>) -> PluginConfig {
    PluginConfig {
        name: name.to_string(),
        runner: runner.to_string(),
        command: command.iter().map(|c| c.to_string()).collect(),
        allow: vec!["alice_browser".to_string()],
        mount: mount.map(|m| m.to_string()),
        extra: Vec::new(),
    }
}

fn config(serve: ServeSettings, policy: Vec<Policy>, plugins: Vec<PluginConfig>) -> RepositoryConfig {
    RepositoryConfig {
        name: "repo".to_string(),
        serve,
        policy,
        ignore: IgnoreConfig { paths: Vec::new() },
        plugin: plugins,
    }
}

fn validate(config: &RepositoryConfig) -> Result<(), ConfigError> {
    config.validate(&vec![false; config.plugin.len()])
}

fn serve(plugin: &str, policy: &str, info: &str) -> ServeSettings {
    ServeSettings {
        port: 3000,
        plugin_url_prefix: plugin.to_string(),
        policy_url_prefix: policy.to_string(),
        info_url_prefix: info.to_string(),
    }
}

fn get_for(identity: &str) -> PolicyPermissions {
    PolicyPermissions {
        get: vec![identity.to_string()],
        post: Vec::new(),
        put: Vec::new(),
        delete: Vec::new(),
    }
}

#[test]
fn policy_rule_defaults_deny_all() {
    let rule = Policy {
        path: WorkspacePath::from_path_str("docs/").unwrap(),
        permissions: PolicyPermissions::deny_all(),
    };

    assert_eq!(rule.path.as_str(), "docs");
    assert!(rule.path.is_directory());
    assert!(rule.permissions.get.is_empty());
    assert!(rule.permissions.post.is_empty());
    assert!(rule.permissions.put.is_empty());
    assert!(rule.permissions.delete.is_empty());
}

#[test]
fn repository_config_serve_settings_defaults_prefixes() {
    let settings = ServeSettings::default();

    assert_eq!(settings.port, 3000);
    assert_eq!(settings.plugin_url_prefix, "/.plugin");
    assert_eq!(settings.policy_url_prefix, "/.policy");
    assert_eq!(settings.info_url_prefix, "/.info");
}

#[test]
fn load_with_serve_overrides_replaces_serve_settings() {
    let mut config = config(serve("/.plugin", "/.policy", "/.info"), Vec::new(), Vec::new());
    config.serve.port = 3030;

    config.apply_serve_overrides(&ServeSettingsOverride {
        port: Some(4040),
        plugin_url_prefix: Some("/.plugin2".to_string()),
        policy_url_prefix: Some("/.policy2".to_string()),
        info_url_prefix: Some("/.info2".to_string()),
    });

    assert_eq!(config.serve.port, 4040);
    assert_eq!(config.serve.plugin_url_prefix, "/.plugin2");
    assert_eq!(config.serve.policy_url_prefix, "/.policy2");
    assert_eq!(config.serve.info_url_prefix, "/.info2");
}

#[test]
fn serve_overrides_keep_unset_values() {
    let mut config = config(ServeSettings::default(), Vec::new(), Vec::new());

    config.apply_serve_overrides(&ServeSettingsOverride {
        port: None,
        plugin_url_prefix: Some("/.p".to_string()),
        policy_url_prefix: None,
        info_url_prefix: None,
    });

    assert_eq!(config.serve.port, 3000);
    assert_eq!(config.serve.plugin_url_prefix, "/.p");
    assert_eq!(config.serve.policy_url_prefix, "/.policy");
}

#[test]
fn repository_config_repository_config_rejects_prefix_without_leading_slash() {
    let config = config(serve(".plugin", "/.policy", "/.info"), Vec::new(), Vec::new());

    let error = validate(&config).unwrap_err();

    assert!(error.message().contains("serve.plugin_url_prefix must start with /"));
}

#[test]
fn repository_config_repository_config_rejects_prefix_with_trailing_slash() {
    let config = config(serve("/.plugin/", "/.policy/", "/.info"), Vec::new(), Vec::new());

    let error = validate(&config).unwrap_err();

    assert!(error.message().contains(
        "serve.plugin_url_prefix must start with /, must not be empty, and must not end with /"
    ));
}

#[test]
fn repository_config_repository_config_rejects_duplicate_virtual_prefixes() {
    let config = config(serve("/.plugin", "/.policy", "/.policy"), Vec::new(), Vec::new());

    let error = validate(&config).unwrap_err();

    assert!(error
        .message()
        .contains("serve.policy_url_prefix and serve.info_url_prefix must be different"));
}

#[test]
fn repository_config_repository_config_rejects_policy_path_with_leading_slash() {
    let error = WorkspacePath::from_path_str("/viewer/").unwrap_err();

    assert!(error.message().contains("absolute paths are not allowed"));
}

#[test]
fn repository_config_repository_config_rejects_policy_path_with_glob_syntax() {
    let config = config(
        ServeSettings::default(),
        vec![Policy {
            path: WorkspacePath::from_path_str("viewer/**").unwrap(),
            permissions: get_for("alice_browser"),
        }],
        Vec::new(),
    );

    let error = validate(&config).unwrap_err();

    assert!(error.message().contains("policy path must not use glob syntax"));
}

#[test]
fn repository_config_mount_inserts_implicit_get_only_policy_before_explicit_rules() {
    let mut config = config(
        ServeSettings::default(),
        vec![Policy {
            path: WorkspacePath::from_path_str("assets/").unwrap(),
            permissions: PolicyPermissions::deny_all(),
        }],
        vec![plugin("assets", "command", &["echo"], Some("/assets/"))],
    );

    config.insert_implicit_mount_policies().unwrap();

    assert_eq!(config.policy.len(), 2);
    assert_eq!(config.policy[0].path.as_str(), "assets");
    assert_eq!(config.policy[0].permissions.get, vec!["alice_browser"]);
    assert!(config.policy[0].permissions.post.is_empty());
    assert_eq!(config.policy[1].path.as_str(), "assets");
    assert!(config.policy[1].permissions.get.is_empty());
}

#[test]
fn repository_config_repository_config_rejects_invalid_plugin_name() {
    let config = config(
        ServeSettings::default(),
        Vec::new(),
        vec![plugin("bad.name", "command", &["echo"], None)],
    );

    let error = validate(&config).unwrap_err();

    assert!(error.message().contains("plugin name must match"));
}

#[test]
fn repository_config_accepts_plugin_without_dependencies() {
    let config = config(
        ServeSettings::default(),
        Vec::new(),
        vec![plugin("preview", "command", &["echo"], None)],
    );

    validate(&config).unwrap();
}

#[test]
fn repository_config_accepts_default_plugin_without_command() {
    let config = config(
        ServeSettings::default(),
        Vec::new(),
        vec![plugin("preview", "default", &[], None)],
    );

    validate(&config).unwrap();
}

#[test]
fn repository_config_rejects_default_plugin_command_override() {
    let config = config(
        ServeSettings::default(),
        Vec::new(),
        vec![plugin("preview", "default", &["echo"], None)],
    );

    let error = validate(&config).unwrap_err();

    assert!(error.message().contains("default plugin must not set command"));
}

#[test]
fn repository_config_repository_config_rejects_policy_path_under_reserved_url_prefix() {
    let config = config(
        ServeSettings::default(),
        vec![Policy {
            path: WorkspacePath::from_path_str(".info/cache.txt").unwrap(),
            permissions: get_for("alice_browser"),
        }],
        Vec::new(),
    );

    let error = validate(&config).unwrap_err();

    assert!(error.message().contains("policy path must not target reserved url prefix"));
}

#[test]
fn repository_config_accepts_command_plugin_without_extra_metadata() {
    let config = config(
        ServeSettings::default(),
        Vec::new(),
        vec![plugin("preview", "command", &["echo"], None)],
    );

    validate(&config).unwrap();
}

#[test]
fn server_config_rejects_ignore_rules() {
    let mut root_ignored = config(ServeSettings::default(), Vec::new(), Vec::new());
    root_ignored.ignore.paths = vec![WorkspacePath::from_path_str(".").unwrap()];
    assert_eq!(
        validate(&root_ignored).unwrap_err().message(),
        "ignore path must not target repository root"
    );

    let mut glob_ignored = config(ServeSettings::default(), Vec::new(), Vec::new());
    glob_ignored.ignore.paths = vec![WorkspacePath::from_path_str("*.tmp").unwrap()];
    assert_eq!(
        validate(&glob_ignored).unwrap_err().message(),
        "ignore path must not use glob syntax"
    );
}

#[test]
fn server_config_rejects_runner_and_empty_command() {
    let odd = config(
        ServeSettings::default(),
        Vec::new(),
        vec![plugin("preview", "shell", &["echo"], None)],
    );
    assert!(matches!(validate(&odd).unwrap_err(), ConfigError::UnsupportedRunner(_)));

    let empty = config(
        ServeSettings::default(),
        Vec::new(),
        vec![plugin("preview", "command", &[], None)],
    );
    assert_eq!(validate(&empty).unwrap_err().message(), "plugin command must not be empty");
}

#[test]
fn server_config_finds_plugins() {
    let config = config(
        ServeSettings::default(),
        Vec::new(),
        vec![
            plugin("a", "command", &["echo"], None),
            plugin("b", "command", &["echo"], None),
        ],
    );

    assert_eq!(config.find_plugin_index("b"), Some(1));
    assert!(config.find_plugin("c").is_none());
    assert_eq!(config.mounts(), vec![None, None]);
}
