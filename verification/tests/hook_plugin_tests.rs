use workspace_fs::hooks::config::{PluginConfig, RepositoryConfig, TaskConfig};
use workspace_fs::hooks::plan::PlannedRun;
use workspace_fs::hooks::plugin::{
    dependency_mounts, expand_placeholder, insert_sorted, mount_env_name, parse_trigger, plugin_matches_path, resolved_plugin_settings,
    PluginContext, PluginTrigger,
};
use workspace_fs::path::WorkspacePath;
use workspace_fs::plugins::{resolve_default_plugin_command, DefaultPluginDefinition, PluginError};
use workspace_fs::server::identity::UserIdentity;
use workspace_fs::setting_value::SettingValue;
use workspace_fs::settings::ServeSettings;

fn plugin_context(path: Option<&str>) -> PluginContext {
    PluginContext {
        repository_root: "/repo".to_string(),
        repository_name: "repo".to_string(),
        plugin_name: "plugin".to_string(),
        output_directory: "/repo/.repo/plugin/generated".to_string(),
        cache_directory: "/repo/.repo/plugin/cache".to_string(),
        mount_url: Some("/plugin-assets/".to_string()),
        dependency_mounts: vec![("MOUNT_BUILD_WASM".to_string(), "/wasm_bundle/".to_string())],
        path: path.map(|value| WorkspacePath::from_url(&format!("/{value}")).unwrap()),
        user_identity: UserIdentity::new("user"),
        workspace_fs_root: "/opt/workspace_fs".to_string(),
    }
}

fn plugin(name: &str, trigger: &str, path: Option<&str>, deps: &[&str]) -> PluginConfig {
    PluginConfig {
        name: name.to_string(),
        runner: "command".to_string(),
        command: vec!["echo".to_string()],
        trigger: trigger.to_string(),
        path: path.map(|p| WorkspacePath::from_path_str(p).unwrap()),
        deps: deps.iter().map(|d| d.to_string()).collect(),
        mount: None,
        extra: Vec::new(),
    }
}

fn repository(plugins: Vec<PluginConfig>, tasks: Vec<TaskConfig>) -> RepositoryConfig {
    RepositoryConfig {
        name: "repo".to_string(),
        serve: ServeSettings::default(),
        policy: Vec::new(),
        plugin: plugins,
        task: tasks,
    }
}

fn render(value: &SettingValue) -> String {
    match value {
        SettingValue::String(s) => format!("\"{s}\""),
        SettingValue::Integer(i) => i.to_string(),
        SettingValue::Float(bits) => f64::from_bits(*bits).to_string(),
        SettingValue::Boolean(b) => b.to_string(),
        SettingValue::Datetime(s) => format!("\"{s}\""),
        SettingValue::Array(items) => {
            format!("[{}]", items.iter().map(render).collect::<Vec<_>>().join(","))
        }
        SettingValue::Table(entries) => render_entries(entries),
    }
}

fn render_entries(entries: &[(String, SettingValue)]) -> String {
    let mut sorted: Vec<&(String, SettingValue)> = entries.iter().collect();
    sorted.sort_by(|a, b| a.0.cmp(&b.0));
    format!(
        "{{{}}}",
        sorted
            .iter()
            .map(|(k, v)| format!("\"{k}\":{}", render(v)))
            .collect::<Vec<_>>()
            .join(",")
    )
}

fn plan_names(config: &RepositoryConfig, plan: &[usize]) -> Vec<String> {
    plan.iter().map(|k| config.plugin[*k].name.clone()).collect()
}

#[test]
fn plugin_resolve_default_plugin_command_reads_default_toml() {
    let definitions = vec![DefaultPluginDefinition {
        name: "md-preview".to_string(),
        command: vec![
            "node".to_string(),
            "{DEFAULT_PLUGINS_ROOT}/md_preview/build.mjs".to_string(),
            "--out-dir".to_string(),
            "{OUTPUT_DIRECTORY}".to_string(),
        ],
    }];

    let command = resolve_default_plugin_command("md-preview", &definitions).unwrap();

    assert_eq!(command[0], "node");
    assert!(command.iter().any(|arg| arg.contains("md_preview/build.mjs")));
}

#[test]
fn default_plugin_command_errors() {
    let definitions = vec![DefaultPluginDefinition {
        name: "empty".to_string(),
        command: Vec::new(),
    }];

    assert_eq!(
        resolve_default_plugin_command("md-preview", &definitions).unwrap_err().message(),
        "default plugin not found: md-preview"
    );
    assert_eq!(
        resolve_default_plugin_command("empty", &definitions).unwrap_err().message(),
        "default plugin command must not be empty: empty"
    );
}

#[test]
fn expand_placeholder_rejects_path_placeholder_without_path() {
    let error = expand_placeholder("{GET.PATH}", &plugin_context(None), PluginTrigger::Manual).unwrap_err();

    assert!(error.message().contains("path placeholder requires request path"));
}

#[test]
fn expand_placeholder_replaces_trigger_specific_values() {
    let value = expand_placeholder(
        "{REPOSITORY_ROOT}:{POST.PATH}:{POST.USER-IDENTITY}:{MOUNT_URL}:{MOUNT_BUILD_WASM}",
        &plugin_context(Some("docs/a.md")),
        PluginTrigger::Post,
    )
    .unwrap();

    assert_eq!(value, "/repo:docs/a.md:user:/plugin-assets/:/wasm_bundle/");
}

#[test]
fn expand_placeholder_rejects_mismatched_trigger_placeholder() {
    let error = expand_placeholder(
        "{GET.USER-IDENTITY}",
        &plugin_context(Some("docs/a.md")),
        PluginTrigger::Manual,
    )
    .unwrap_err();

    assert!(error.message().contains("unknown placeholder"));
}

#[test]
fn expand_placeholder_replaces_directories() {
    let value = expand_placeholder(
        "{REPOSITORY_NAME}|{PLUGIN_NAME}|{OUTPUT_DIRECTORY}|{OUTPOST_DIRECTORY}",
        &plugin_context(None),
        PluginTrigger::Manual,
    )
    .unwrap();

    assert_eq!(
        value,
        "repo|plugin|/repo/.repo/plugin/generated|/repo/.repo/plugin/generated"
    );
}

#[test]
fn mount_env_name_normalizes_plugin_names() {
    assert_eq!(mount_env_name("build-wasm"), "MOUNT_BUILD_WASM");
    assert_eq!(mount_env_name("Build_2"), "MOUNT_BUILD_2");
}

#[test]
fn plugin_resolved_plugin_settings_json_expands_nested_placeholders() {
    let mut plugin = plugin("plugin", "manual", None, &["build-wasm"]);
    plugin.mount = Some("/plugin-assets/".to_string());
    plugin.extra = vec![(
        "md_preview".to_string(),
        SettingValue::Table(vec![(
            "enhance".to_string(),
            SettingValue::Array(vec![SettingValue::Table(vec![
                ("name".to_string(), SettingValue::String("embedded-models".to_string())),
                (
                    "url".to_string(),
                    SettingValue::String("{MOUNT_BUILD_WASM}enhance.js".to_string()),
                ),
                (
                    "settings".to_string(),
                    SettingValue::Table(vec![(
                        "mount".to_string(),
                        SettingValue::String("{MOUNT_BUILD_WASM}".to_string()),
                    )]),
                ),
            ])]),
        )]),
    )];

    let settings = resolved_plugin_settings(&plugin, &plugin_context(None), PluginTrigger::Manual).unwrap();

    assert_eq!(
        render_entries(&settings),
        r#"{"md_preview":{"enhance":[{"name":"embedded-models","settings":{"mount":"/wasm_bundle/"},"url":"/wasm_bundle/enhance.js"}]}}"#
    );
}

#[test]
fn resolved_settings_report_unknown_placeholder() {
    let mut plugin = plugin("plugin", "manual", None, &[]);
    plugin.extra = vec![("url".to_string(), SettingValue::String("{NOPE}".to_string()))];

    let error = resolved_plugin_settings(&plugin, &plugin_context(None), PluginTrigger::Manual).unwrap_err();

    assert!(matches!(error, PluginError::UnknownPlaceholder(_)));
}

#[test]
fn plugin_matches_path_uses_exact_match_for_files() {
    let plugin = plugin("plugin", "GET", Some("docs/a.md"), &[]);

    assert!(plugin_matches_path(&plugin, &WorkspacePath::from_path_str("docs/a.md").unwrap()));
    assert!(!plugin_matches_path(&plugin, &WorkspacePath::from_path_str("docs/b.md").unwrap()));
}

#[test]
fn plugin_matches_path_uses_prefix_match_for_directories() {
    let plugin = plugin("plugin", "GET", Some("docs/"), &[]);

    assert!(plugin_matches_path(&plugin, &WorkspacePath::from_path_str("docs/a.md").unwrap()));
    assert!(!plugin_matches_path(&plugin, &WorkspacePath::from_path_str("images/a.md").unwrap()));
}

#[test]
fn plan_task_orders_dependencies_before_steps() {
    let config = repository(
        vec![
            plugin("build-wasm", "manual", None, &[]),
            plugin("md-preview", "manual", None, &["build-wasm"]),
        ],
        vec![TaskConfig {
            name: "build".to_string(),
            steps: vec!["md-preview".to_string()],
        }],
    );

    let plan = config.plan_task("build", false).unwrap();

    assert_eq!(plan_names(&config, &plan), vec!["build-wasm", "md-preview"]);
}

#[test]
fn plan_task_skip_deps_uses_task_steps_only() {
    let config = repository(
        vec![
            plugin("build-wasm", "manual", None, &[]),
            plugin("md-preview", "manual", None, &["build-wasm"]),
        ],
        vec![TaskConfig {
            name: "build".to_string(),
            steps: vec!["md-preview".to_string()],
        }],
    );

    let plan = config.plan_task("build", true).unwrap();

    assert_eq!(plan_names(&config, &plan), vec!["md-preview"]);
}

#[test]
fn plan_task_plans_shared_dependencies_once() {
    let config = repository(
        vec![
            plugin("c", "manual", None, &[]),
            plugin("b", "manual", None, &["c"]),
            plugin("a", "manual", None, &["b", "c"]),
        ],
        vec![TaskConfig {
            name: "all".to_string(),
            steps: vec!["a".to_string(), "b".to_string(), "a".to_string()],
        }],
    );

    let plan = config.plan_task("all", false).unwrap();

    assert_eq!(plan_names(&config, &plan), vec!["c", "b", "a"]);
    assert_eq!(
        plan_names(&config, &config.plan_task("all", true).unwrap()),
        vec!["a", "b"]
    );
}

#[test]
fn plan_task_reports_cycles_and_unknown_names() {
    let config = repository(
        vec![
            plugin("a", "manual", None, &["b"]),
            plugin("b", "manual", None, &["a"]),
            plugin("lonely", "manual", None, &["missing"]),
        ],
        vec![
            TaskConfig {
                name: "cycle".to_string(),
                steps: vec!["a".to_string()],
            },
            TaskConfig {
                name: "broken".to_string(),
                steps: vec!["lonely".to_string()],
            },
            TaskConfig {
                name: "unknown".to_string(),
                steps: vec!["nothing".to_string()],
            },
        ],
    );

    assert_eq!(
        config.plan_task("cycle", false).unwrap_err().message(),
        "plugin dependency cycle detected at a"
    );
    assert_eq!(
        config.plan_task("broken", false).unwrap_err().message(),
        "plugin not found: missing"
    );
    assert_eq!(
        config.plan_task("unknown", false).unwrap_err().message(),
        "plugin not found for task step: nothing"
    );
    assert_eq!(config.plan_task("none", false).unwrap_err().message(), "task not found: none");
}

#[test]
fn manual_plugin_runs_after_its_dependencies() {
    let config = repository(
        vec![
            plugin("build-wasm", "manual", None, &[]),
            plugin("md-preview", "manual", None, &["build-wasm"]),
            plugin("hook", "GET", Some("docs/"), &[]),
        ],
        Vec::new(),
    );

    let plan = config.plan_manual_plugin("md-preview");
    assert!(plan.error.is_none());
    assert_eq!(
        plan.runs,
        vec![
            PlannedRun { plugin: 0, trigger: PluginTrigger::Manual, with_path: false },
            PlannedRun { plugin: 1, trigger: PluginTrigger::Manual, with_path: false },
        ]
    );

    let not_manual = config.plan_manual_plugin("hook");
    assert!(not_manual.runs.is_empty());
    assert_eq!(not_manual.error.unwrap().message(), "plugin is not manual: hook");
}

#[test]
fn hooks_fire_for_matching_trigger_and_path() {
    let config = repository(
        vec![
            plugin("prepare", "manual", None, &[]),
            plugin("on-get", "GET", Some("docs/"), &["prepare"]),
            plugin("on-put", "PUT", Some("docs/"), &[]),
            plugin("other", "GET", Some("images/"), &[]),
        ],
        Vec::new(),
    );

    let plan = config.plan_hooks(PluginTrigger::Get, &WorkspacePath::from_path_str("docs/a.md").unwrap());

    assert!(plan.error.is_none());
    assert_eq!(
        plan.runs,
        vec![
            PlannedRun { plugin: 0, trigger: PluginTrigger::Manual, with_path: false },
            PlannedRun { plugin: 1, trigger: PluginTrigger::Get, with_path: true },
        ]
    );
}

#[test]
fn hooks_stop_at_unsupported_trigger() {
    let config = repository(vec![plugin("odd", "PATCH", Some("docs/"), &[])], Vec::new());

    let plan = config.plan_hooks(PluginTrigger::Get, &WorkspacePath::from_path_str("docs/a.md").unwrap());

    assert!(plan.runs.is_empty());
    assert_eq!(plan.error.unwrap().message(), "unsupported plugin trigger: PATCH");
}

#[test]
fn trigger_names_parse_back() {
    for trigger in [
        PluginTrigger::Get,
        PluginTrigger::Post,
        PluginTrigger::Put,
        PluginTrigger::Delete,
        PluginTrigger::Manual,
    ] {
        assert_eq!(parse_trigger(trigger.as_str()).unwrap(), trigger);
    }
    assert!(parse_trigger("get").is_err());
}

#[test]
fn sorted_insert_keeps_keys_ordered_and_unique() {
    let mut map: Vec<(String, String)> = Vec::new();
    insert_sorted(&mut map, "MOUNT_B".to_string(), "/b/".to_string());
    insert_sorted(&mut map, "MOUNT_A".to_string(), "/a/".to_string());
    insert_sorted(&mut map, "MOUNT_C".to_string(), "/c/".to_string());
    insert_sorted(&mut map, "MOUNT_B".to_string(), "/b2/".to_string());

    assert_eq!(
        map,
        vec![
            ("MOUNT_A".to_string(), "/a/".to_string()),
            ("MOUNT_B".to_string(), "/b2/".to_string()),
            ("MOUNT_C".to_string(), "/c/".to_string()),
        ]
    );
}

#[test]
fn dependency_mounts_are_keyed_by_environment_name() {
    let mut wasm = plugin("build-wasm", "manual", None, &[]);
    wasm.mount = Some("/wasm_bundle/".to_string());
    let mut assets = plugin("Assets", "manual", None, &[]);
    assets.mount = Some("/assets/".to_string());
    let preview = plugin("md-preview", "manual", None, &["build-wasm", "Assets"]);
    let config = repository(vec![wasm, assets, preview], Vec::new());

    let mounts = dependency_mounts(&config, &config.plugin[2]).unwrap();

    assert_eq!(
        mounts,
        vec![
            ("MOUNT_ASSETS".to_string(), "/assets/".to_string()),
            ("MOUNT_BUILD_WASM".to_string(), "/wasm_bundle/".to_string()),
        ]
    );
}
