use workspace_fs::client::cli::{parse_cli_options, parse_proxy_cli_options, startup_steps, StartupStep};
use workspace_fs::text::entries_ordered;
use workspace_fs::client::config::{
    scalar_value, RepositoryMode, ServerValue, UserConfig, UserConfigError, UserRepositoryConfig,
    UserServerConfig, UserTaskConfig, UserTaskStep,
};
use workspace_fs::client::proxy::{
    connect_step, early_exit_message, run_step, spawn_target, ReadyStep, RunAction, RunEvent,
    RunState, ServerTaskEnd, is_connection_pending, is_hop_by_hop_header, is_skipped_request_header,
    is_skipped_response_header, normalize_upstream_base, parse_repl_command, plugin_run_url,
    repl_line, server_cli_args, spawned_upstream_base, split_words, target_url, IoErrorKind,
    ReplCommand, ReplError, ReplLine, UpstreamError,
};

fn args(list: &[&str]) -> Vec<String> {
    list.iter().map(|a| a.to_string()).collect()
}

fn server(values: Vec<(&str, ServerValue)>, extra: &[&str]) -> UserServerConfig {
    UserServerConfig {
        args: args(extra),
        values: values.into_iter().map(|(k, v)| (k.to_string(), v)).collect(),
    }
}

fn spawn_repository(name: &str, port: u16, server_config: Option<UserServerConfig>) -> UserRepositoryConfig {
    UserRepositoryConfig {
        name: name.to_string(),
        mode: RepositoryMode::Spawn,
        port,
        where_: None,
        as_user: "alice".to_string(),
        plugin_url_prefix: "/.plugin".to_string(),
        server: server_config,
    }
}

fn attach_repository(name: &str, port: u16, where_: &str) -> UserRepositoryConfig {
    UserRepositoryConfig {
        name: name.to_string(),
        mode: RepositoryMode::Attach,
        port,
        where_: Some(where_.to_string()),
        as_user: "bob".to_string(),
        plugin_url_prefix: "/.plugin".to_string(),
        server: None,
    }
}

fn task(name: &str, steps: &[(&str, &str)]) -> UserTaskConfig {
    UserTaskConfig {
        name: name.to_string(),
        step: steps
            .iter()
            .map(|(r, p)| UserTaskStep {
                repository: r.to_string(),
                plugin: p.to_string(),
            })
            .collect(),
    }
}

#[test]
fn client_proxy_app_parse_cli_options_accepts_missing_repository_path() {
    let cli = parse_proxy_cli_options(&args(&["--task", "build"])).unwrap();

    assert!(cli.repository_path.is_none());
    assert_eq!(cli.task.as_deref(), Some("build"));
}

#[test]
fn client_proxy_app_parse_cli_options_accepts_repository_path() {
    let cli = parse_proxy_cli_options(&args(&["./repo", "--repository", "local"])).unwrap();

    assert_eq!(cli.repository_path.as_deref(), Some("./repo"));
    assert_eq!(cli.repository_name.as_deref(), Some("local"));
}

#[test]
fn parse_cli_options_accepts_repl() {
    let cli = parse_proxy_cli_options(&args(&["--repl"])).unwrap();

    assert!(cli.repl);
    assert!(cli.task.is_none());
    assert!(cli.task_only.is_none());
}

#[test]
fn cli_parse_cli_options_accepts_missing_repository_path() {
    let cli = parse_cli_options(&Vec::new()).unwrap();

    assert!(cli.repository_path.is_none());
}

#[test]
fn cli_parse_cli_options_accepts_repository_path() {
    let cli = parse_cli_options(&args(&["./repo"])).unwrap();

    assert_eq!(cli.repository_path.as_deref(), Some("./repo"));
}

#[test]
fn parse_cli_options_rejects_named_flags() {
    let error = parse_cli_options(&args(&["--task", "build"])).unwrap_err();

    assert!(error.message().contains("unknown argument: --task"));
}

#[test]
fn client_cli_rejects_second_path() {
    assert_eq!(
        parse_cli_options(&args(&["./a", "./b"])).unwrap_err().message(),
        "unknown argument: ./b"
    );
}

#[test]
fn load_toml_reads_user_config() {
    let config = UserConfig {
        repository: vec![spawn_repository(
            "local",
            3031,
            Some(server(
                vec![
                    ("plugin_url_prefix", ServerValue::Text("/.plugin2".to_string())),
                    ("port", ServerValue::Integer(3020)),
                ],
                &[],
            )),
        )],
        task: Vec::new(),
    };

    assert!(config.validate().is_ok());
    assert_eq!(config.repository.len(), 1);
    assert_eq!(config.repository[0].name, "local");
    assert_eq!(config.repository[0].mode, RepositoryMode::Spawn);
    assert_eq!(config.repository[0].port, 3031);
    assert_eq!(config.repository[0].where_, None);
    assert_eq!(config.repository[0].as_user, "alice");
    assert_eq!(config.repository[0].plugin_url_prefix, "/.plugin");
    let server = config.repository[0].server.as_ref().unwrap();
    assert_eq!(server.port(), Some(3020));
    assert_eq!(
        server.cli_args().unwrap(),
        vec!["--plugin-url-prefix=/.plugin2", "--port=3020"]
    );
}

#[test]
fn repositories_to_start_returns_all_when_name_is_omitted() {
    let config = UserConfig {
        repository: vec![
            spawn_repository("local", 3031, None),
            attach_repository("remote", 3032, "localhost:3000"),
        ],
        task: Vec::new(),
    };

    let repos = config.repositories_to_start(None).unwrap();
    assert_eq!(repos.len(), 2);
    assert_eq!(config.repository[repos[0]].name, "local");
    assert_eq!(config.repository[repos[1]].name, "remote");
}

#[test]
fn repositories_to_start_selects_by_name() {
    let config = UserConfig {
        repository: vec![
            spawn_repository("local", 3031, None),
            attach_repository("remote", 3032, "localhost:3000"),
        ],
        task: Vec::new(),
    };

    assert_eq!(config.repositories_to_start(Some("remote")).unwrap(), vec![1]);
    assert_eq!(
        config.repositories_to_start(Some("other")).unwrap_err().message(),
        "repository not found in .repo/user.toml: other"
    );
    let empty = UserConfig {
        repository: Vec::new(),
        task: Vec::new(),
    };
    assert_eq!(
        empty.repositories_to_start(None).unwrap_err().message(),
        "no [[repository]] entries configured in .repo/user.toml"
    );
}

#[test]
fn load_toml_reads_task_config() {
    let config = UserConfig {
        repository: vec![spawn_repository("local", 3031, None)],
        task: vec![task("build", &[("local", "md-preview")])],
    };

    let task = config.find_task("build").unwrap();
    assert_eq!(task.step.len(), 1);
    assert_eq!(task.step[0].repository, "local");
    assert_eq!(task.step[0].plugin, "md-preview");
}

#[test]
fn spawn_repository_requires_server_port() {
    let config = UserConfig {
        repository: vec![spawn_repository(
            "local",
            3031,
            Some(server(
                vec![("plugin_url_prefix", ServerValue::Text("/.plugin2".to_string()))],
                &[],
            )),
        )],
        task: Vec::new(),
    };

    let error = config.validate().unwrap_err();

    assert!(error
        .message()
        .contains("repository.server.port is required when mode = \"spawn\""));
}

#[test]
fn user_config_validation_errors() {
    let none = UserConfig {
        repository: Vec::new(),
        task: Vec::new(),
    };
    assert!(matches!(none.validate().unwrap_err(), UserConfigError::NoRepositories));

    let twice = UserConfig {
        repository: vec![
            attach_repository("a", 3001, "localhost:3000"),
            attach_repository("b", 3001, "localhost:3000"),
        ],
        task: Vec::new(),
    };
    assert_eq!(
        twice.validate().unwrap_err().message(),
        "duplicate repository.port in .repo/user.toml: 3001"
    );

    let mut attach_with_server = attach_repository("a", 3001, "localhost:3000");
    attach_with_server.server = Some(server(Vec::new(), &[]));
    let wrong = UserConfig {
        repository: vec![attach_with_server],
        task: Vec::new(),
    };
    assert!(matches!(wrong.validate().unwrap_err(), UserConfigError::ServerOnlyForSpawn(_)));

    let unknown = UserConfig {
        repository: vec![attach_repository("a", 3001, "localhost:3000")],
        task: vec![task("build", &[("b", "p")])],
    };
    assert_eq!(
        unknown.validate().unwrap_err().message(),
        "task references unknown repository in .repo/user.toml: build -> b"
    );
}

#[test]
fn scalar_values_become_arguments() {
    assert_eq!(scalar_value("port", &ServerValue::Integer(-3)).unwrap(), "-3");
    assert_eq!(scalar_value("flag", &ServerValue::Boolean(true)).unwrap(), "true");
    assert_eq!(scalar_value("ratio", &ServerValue::Float("0.5".to_string())).unwrap(), "0.5");
    assert_eq!(
        scalar_value("table", &ServerValue::Composite).unwrap_err().message(),
        "repository.server.table must be a scalar value"
    );
}

#[test]
fn spawned_server_command_line() {
    let server = server(
        vec![
            ("info_url_prefix", ServerValue::Text("/.i".to_string())),
            ("port", ServerValue::Integer(3020)),
        ],
        &["--verbose"],
    );

    assert_eq!(
        server_cli_args("/repo", &server).unwrap(),
        vec!["/repo", "--info-url-prefix=/.i", "--port=3020", "--verbose"]
    );
    assert_eq!(spawned_upstream_base(3020), "http://127.0.0.1:3020");
}

#[test]
fn upstream_addresses_are_normalised() {
    assert_eq!(normalize_upstream_base(" localhost:3000/ ").unwrap(), "http://localhost:3000");
    assert_eq!(normalize_upstream_base("http://h:1//").unwrap(), "http://h:1");
    assert!(matches!(normalize_upstream_base("  /").unwrap_err(), UpstreamError::WhereEmpty));
    assert_eq!(
        normalize_upstream_base("https://h").unwrap_err().message(),
        "https is not supported for repository.where"
    );
    assert_eq!(
        normalize_upstream_base("ftp://h").unwrap_err().message(),
        "unsupported scheme for repository.where: ftp"
    );
}

#[test]
fn proxy_headers_and_urls() {
    assert!(is_hop_by_hop_header("connection"));
    assert!(is_hop_by_hop_header("transfer-encoding"));
    assert!(!is_hop_by_hop_header("content-type"));
    assert!(is_skipped_request_header("host"));
    assert!(is_skipped_request_header("user-identity"));
    assert!(!is_skipped_request_header("accept"));
    assert!(is_skipped_response_header("keep-alive"));
    assert!(!is_skipped_response_header("content-length"));
    assert!(is_connection_pending(IoErrorKind::ConnectionRefused));
    assert!(!is_connection_pending(IoErrorKind::Other));
    assert_eq!(target_url("http://h:1", Some("/docs/?x=1")), "http://h:1/docs/?x=1");
    assert_eq!(target_url("http://h:1", None), "http://h:1/");
    assert_eq!(plugin_run_url("http://h:1", "/.plugin", "md"), "http://h:1/.plugin/md/run");
}

#[test]
fn task_plan_follows_steps() {
    let config = UserConfig {
        repository: vec![
            spawn_repository("local", 3031, None),
            attach_repository("remote", 3032, "localhost:3000"),
        ],
        task: vec![
            task("build", &[("remote", "a"), ("local", "b")]),
            task("broken", &[("local", "a"), ("other", "b")]),
        ],
    };

    let plan = config.plan_task("build");
    assert_eq!(plan.task, Some(0));
    assert_eq!(plan.steps, vec![(1, 0), (0, 1)]);
    assert!(plan.error.is_none());

    let broken = config.plan_task("broken");
    assert_eq!(broken.steps, vec![(0, 0)]);
    assert_eq!(
        broken.error.unwrap().message(),
        "repository not found in .repo/user.toml: other"
    );

    let missing = config.plan_task("nothing");
    assert_eq!(missing.task, None);
    assert!(missing.steps.is_empty());
}

#[test]
fn repl_commands_parse() {
    assert_eq!(split_words("  task   build "), vec!["task", "build"]);
    assert!(matches!(parse_repl_command("task build").unwrap(), ReplCommand::Task(t) if t == "build"));
    assert!(matches!(
        parse_repl_command("plugin local md").unwrap(),
        ReplCommand::Plugin { repository_name, plugin_name } if repository_name == "local" && plugin_name == "md"
    ));
    assert!(matches!(parse_repl_command("help").unwrap(), ReplCommand::Help));
    assert!(matches!(parse_repl_command("").unwrap(), ReplCommand::Help));
    assert!(matches!(parse_repl_command("task").unwrap_err(), ReplError::TaskUsage));
    assert_eq!(
        parse_repl_command("plugin a b c").unwrap_err().message(),
        "usage: plugin <repository-name> <plugin-name>"
    );
    assert_eq!(parse_repl_command("run x").unwrap_err().message(), "unknown command: run");
}

#[test]
fn repl_lines_skip_comments_and_exit() {
    assert!(matches!(repl_line("   "), ReplLine::Skip));
    assert!(matches!(repl_line(" # note"), ReplLine::Skip));
    assert!(matches!(repl_line(" quit "), ReplLine::Exit));
    assert!(matches!(repl_line("exit"), ReplLine::Exit));
    assert!(matches!(repl_line("task build"), ReplLine::Command(Ok(ReplCommand::Task(_)))));
}

#[test]
fn spawn_targets_need_a_server_port() {
    let with_port = spawn_repository(
        "local",
        3031,
        Some(server(vec![("port", ServerValue::Integer(3020))], &[])),
    );
    let (base, port) = spawn_target(&with_port).unwrap();
    assert_eq!(base, "http://127.0.0.1:3020");
    assert_eq!(port, 3020);

    let without_server = spawn_repository("local", 3031, None);
    assert_eq!(
        spawn_target(&without_server).unwrap_err().message(),
        "repository.server is required for mode = \"spawn\""
    );

    let without_port = spawn_repository("local", 3031, Some(server(Vec::new(), &[])));
    assert!(matches!(
        spawn_target(&without_port).unwrap_err(),
        UserConfigError::ServerPortRequired(_)
    ));
}

#[test]
fn waiting_for_a_server() {
    assert_eq!(connect_step(None, true), ReadyStep::Ready);
    assert_eq!(connect_step(Some(IoErrorKind::ConnectionRefused), false), ReadyStep::Retry);
    assert_eq!(
        connect_step(Some(IoErrorKind::TimedOut), true),
        ReadyStep::Fail("timed out waiting for server to start".to_string())
    );
    assert_eq!(
        connect_step(Some(IoErrorKind::Other), false),
        ReadyStep::Fail("failed to connect to spawned server".to_string())
    );
    assert_eq!(
        early_exit_message(&ServerTaskEnd::Failed),
        "server task exited before becoming ready"
    );
    assert_eq!(
        early_exit_message(&ServerTaskEnd::JoinFailed("panic".to_string())),
        "server task failed before becoming ready: panic"
    );
}

#[test]
fn run_loop_keeps_first_error_and_stops() {
    let start = RunState { first_error: None, repl_done: false, tasks_left: 2 };

    let (state, action) = run_step(start, RunEvent::ProxyFinished(None));
    assert_eq!(action, RunAction { shutdown: false, stop: false });
    assert_eq!(state.tasks_left, 1);

    let (state, action) = run_step(state, RunEvent::ReplFinished(Some("repl broke".to_string())));
    assert_eq!(action, RunAction { shutdown: true, stop: false });
    assert!(state.repl_done);

    let (state, action) = run_step(state, RunEvent::ProxyJoinFailed("panicked".to_string()));
    assert_eq!(action, RunAction { shutdown: true, stop: true });
    assert_eq!(state.first_error.as_deref(), Some("repl broke"));

    let fresh = RunState { first_error: None, repl_done: true, tasks_left: 1 };
    let (state, action) = run_step(fresh, RunEvent::ProxyJoinFailed("panicked".to_string()));
    assert_eq!(action, RunAction { shutdown: true, stop: true });
    assert_eq!(state.first_error.as_deref(), Some("proxy server task failed: panicked"));

    let quiet = RunState { first_error: None, repl_done: true, tasks_left: 1 };
    let (_, action) = run_step(quiet, RunEvent::ProxyFinished(None));
    assert_eq!(action, RunAction { shutdown: false, stop: true });
}

#[test]
fn spawned_repository_uses_the_server_plugin_prefix() {
    let spawned = spawn_repository(
        "local",
        3031,
        Some(server(
            vec![
                ("plugin_url_prefix", ServerValue::Text("/.plugin2".to_string())),
                ("port", ServerValue::Integer(3020)),
            ],
            &[],
        )),
    );
    assert_eq!(spawned.upstream_plugin_url_prefix(), "/.plugin2");

    let default_prefix = spawn_repository("local", 3031, Some(server(vec![("port", ServerValue::Integer(3020))], &[])));
    assert_eq!(default_prefix.upstream_plugin_url_prefix(), "/.plugin");

    let mut attached = attach_repository("remote", 3032, "localhost:3000");
    attached.plugin_url_prefix = "/.remote-plugin".to_string();
    assert_eq!(attached.upstream_plugin_url_prefix(), "/.remote-plugin");
}

#[test]
fn server_settings_must_be_in_key_order() {
    let ordered = server(
        vec![
            ("plugin_url_prefix", ServerValue::Text("/.plugin2".to_string())),
            ("port", ServerValue::Integer(3020)),
        ],
        &[],
    );
    assert!(entries_ordered(&ordered.values));
    let unordered = server(
        vec![
            ("port", ServerValue::Integer(3020)),
            ("plugin_url_prefix", ServerValue::Text("/.plugin2".to_string())),
        ],
        &[],
    );
    assert!(!entries_ordered(&unordered.values));
    let repeated = server(vec![("port", ServerValue::Integer(1)), ("port", ServerValue::Integer(2))], &[]);
    assert!(!entries_ordered(&repeated.values));
    assert_eq!(
        ordered.text_value("plugin_url_prefix"),
        Some("/.plugin2")
    );
    assert_eq!(ordered.text_value("port"), None);
}

#[test]
fn startup_runs_task_then_repl_or_proxies() {
    let only = parse_proxy_cli_options(&args(&["--task-only", "build"])).unwrap();
    let steps = startup_steps(&only);
    assert_eq!(steps.len(), 1);
    assert!(matches!(&steps[0], StartupStep::RunTask(t) if t == "build"));

    let task = parse_proxy_cli_options(&args(&["--task", "build", "--repository", "local"])).unwrap();
    let steps = startup_steps(&task);
    assert_eq!(steps.len(), 2);
    assert!(matches!(&steps[0], StartupStep::RunTask(t) if t == "build"));
    assert!(matches!(&steps[1], StartupStep::StartProxies(Some(n)) if n == "local"));

    let repl = parse_proxy_cli_options(&args(&["--repl"])).unwrap();
    let steps = startup_steps(&repl);
    assert_eq!(steps.len(), 1);
    assert!(matches!(&steps[0], StartupStep::Repl));

    let plain = parse_proxy_cli_options(&args(&[])).unwrap();
    let steps = startup_steps(&plain);
    assert_eq!(steps.len(), 1);
    assert!(matches!(&steps[0], StartupStep::StartProxies(None)));
}
