use workspace_fs::path::{PathError, WorkspacePath};
use workspace_fs::server::cli::{cli_args_for_server, parse_cli_options, parse_u16, CliError};
use workspace_fs::server::http::{
    content_type_for_path, error_chain_contains, map_path_error, map_read_error, request_path, HttpError,
};
use workspace_fs::server::identity::{capture_identity, UserIdentity};
use workspace_fs::server::repository::RepositoryError;

fn args(list: &[&str]) -> Vec<String> {
    list.iter().map(|a| a.to_string()).collect()
}

#[test]
fn router_request_path_root() {
    assert_eq!(request_path(""), "/");
}

#[test]
fn router_request_path_file() {
    assert_eq!(request_path("docs/a.md"), "/docs/a.md");
}

#[test]
fn server_app_request_path_root() {
    assert_eq!(request_path(""), "/");
}

#[test]
fn server_app_request_path_file() {
    assert_eq!(request_path("docs/a.md"), "/docs/a.md");
}

#[test]
fn request_path_adds_leading_slash() {
    assert_eq!(request_path("docs/a.md"), "/docs/a.md");
}

#[test]
fn request_path_reads_back_through_from_url() {
    let path = WorkspacePath::from_url(&request_path("docs/a.md")).unwrap();
    assert_eq!(path.as_str(), "docs/a.md");
    assert!(!path.is_directory());

    let dir = WorkspacePath::from_url(&request_path("docs/")).unwrap();
    assert_eq!(dir.as_str(), "docs");
    assert!(dir.is_directory());
}

#[test]
fn router_user_identity_from_headers_reads_header() {
    assert_eq!(
        UserIdentity::from_header_value(Some("from_browser")).unwrap().as_str(),
        "from_browser"
    );
}

#[test]
fn server_app_user_identity_from_headers_reads_header() {
    assert_eq!(
        UserIdentity::from_header_value(Some("from_browser")).unwrap().as_str(),
        "from_browser"
    );
}

#[test]
fn main_user_identity_from_headers_reads_header() {
    assert_eq!(
        UserIdentity::from_header_value(Some("from_browser")).unwrap().as_str(),
        "from_browser"
    );
}

#[test]
fn blank_identity_header_is_missing() {
    assert!(UserIdentity::from_header_value(Some("   ")).is_none());
    assert!(UserIdentity::from_header_value(None).is_none());
    assert_eq!(
        UserIdentity::from_header_value(Some("  bob ")).unwrap().as_str(),
        "bob"
    );
}

#[test]
fn get_requires_user_identity() {
    let (status, message) = capture_identity(None).unwrap_err();

    assert_eq!(status, 400);
    assert_eq!(message, "missing user-identity header");
}

#[test]
fn post_requires_user_identity() {
    let (status, _) = capture_identity(Some("")).unwrap_err();

    assert_eq!(status, 400);
}

#[test]
fn get_accepts_user_identity() {
    let identity = capture_identity(Some("alice_browser")).unwrap();

    assert_eq!(identity.user.as_str(), "alice_browser");
}

#[test]
fn response_unknown_extension_falls_back_to_octet_stream() {
    assert_eq!(
        content_type_for_path(&WorkspacePath::from_path_str("assets/blob.custombin").unwrap()),
        "application/octet-stream"
    );
}

#[test]
fn workspace_unknown_extension_falls_back_to_octet_stream() {
    assert_eq!(
        content_type_for_path(&WorkspacePath::from_path_str("assets/blob.custombin").unwrap()),
        "application/octet-stream"
    );
}

#[test]
fn response_file_response_uses_html_mime_and_binary_body() {
    assert_eq!(
        content_type_for_path(&WorkspacePath::from_path_str("assets/md_preview.html").unwrap()),
        "text/html; charset=utf-8"
    );
}

#[test]
fn workspace_file_response_uses_html_mime_and_binary_body() {
    assert_eq!(
        content_type_for_path(&WorkspacePath::from_path_str("assets/md_preview.html").unwrap()),
        "text/html; charset=utf-8"
    );
}

#[test]
fn binary_content_type_has_no_charset() {
    assert_eq!(
        content_type_for_path(&WorkspacePath::from_path_str("assets/logo.png").unwrap()),
        "image/png"
    );
}

#[test]
fn http_errors_carry_status_and_message() {
    let error = HttpError::from_request_path(&PathError::ReservedPath);
    assert_eq!(error.status, 400);
    assert_eq!(error.message, "reserved path");

    let missing = HttpError::from_read_file(&RepositoryError::FileNotFound);
    assert_eq!(missing.status, 404);

    let exists = HttpError::from_create_file(&RepositoryError::FileAlreadyExists);
    assert_eq!(exists.status, 409);
}

#[test]
fn error_messages_map_to_statuses() {
    assert_eq!(map_path_error("path escapes repository root").status, 400);
    assert_eq!(map_path_error("disk on fire").status, 500);
    assert!(error_chain_contains(
        &vec!["outer".to_string(), "inner: file not found".to_string()],
        "file not found"
    ));
    assert_eq!(
        map_read_error(&vec!["No such file or directory (os error 2)".to_string()], "x").status,
        404
    );
    assert_eq!(
        map_read_error(&vec!["Is a directory".to_string()], "x").message,
        "path is a directory"
    );
    assert_eq!(
        map_read_error(&vec!["Is a directory (os error 21)".to_string()], "x").status,
        404
    );
    assert_eq!(map_read_error(&Vec::new(), "reserved path").status, 400);
}

#[test]
fn cli_parse_cli_args_accepts_repository_only() {
    let cli = parse_cli_options(&args(&["./repo"])).unwrap();

    assert_eq!(cli.repository_path, "./repo");
    assert!(cli.serve_overrides.port.is_none());
}

#[test]
fn cli_parse_cli_args_accepts_serve_overrides() {
    let cli = parse_cli_options(&args(&[
        "./repo",
        "--port=4010",
        "--plugin-url-prefix=/.plugin2",
        "--policy-url-prefix=/.policy2",
        "--info-url-prefix=/.info2",
    ]))
    .unwrap();

    assert_eq!(cli.repository_path, "./repo");
    assert_eq!(cli.serve_overrides.port, Some(4010));
    assert_eq!(cli.serve_overrides.plugin_url_prefix.as_deref(), Some("/.plugin2"));
    assert_eq!(cli.serve_overrides.policy_url_prefix.as_deref(), Some("/.policy2"));
    assert_eq!(cli.serve_overrides.info_url_prefix.as_deref(), Some("/.info2"));
}

#[test]
fn server_app_parse_cli_args_accepts_repository_only() {
    let cli = parse_cli_options(&args(&["./repo"])).unwrap();

    assert_eq!(cli.repository_path, "./repo");
    assert!(cli.serve_overrides.port.is_none());
}

#[test]
fn server_app_parse_cli_args_accepts_serve_overrides() {
    let cli = parse_cli_options(&args(&[
        "./repo",
        "--port=4010",
        "--plugin-url-prefix=/.plugin2",
        "--policy-url-prefix=/.policy2",
        "--info-url-prefix=/.info2",
    ]))
    .unwrap();

    assert_eq!(cli.repository_path, "./repo");
    assert_eq!(cli.serve_overrides.port, Some(4010));
    assert_eq!(cli.serve_overrides.plugin_url_prefix.as_deref(), Some("/.plugin2"));
    assert_eq!(cli.serve_overrides.policy_url_prefix.as_deref(), Some("/.policy2"));
    assert_eq!(cli.serve_overrides.info_url_prefix.as_deref(), Some("/.info2"));
}

#[test]
fn cli_errors() {
    assert_eq!(
        parse_cli_options(&Vec::new()).unwrap_err().message(),
        "usage: workspace_fs <repository-path>"
    );
    assert_eq!(
        parse_cli_options(&args(&["./repo", "--verbose"])).unwrap_err().message(),
        "unknown argument: --verbose"
    );
    assert_eq!(
        parse_cli_options(&args(&["./repo", "--port=70000"])).unwrap_err().message(),
        "invalid value for --port: 70000"
    );
    assert!(matches!(
        parse_cli_options(&args(&["./repo", "--color=red"])).unwrap_err(),
        CliError::UnknownArgument(_)
    ));
}

#[test]
fn port_parsing_is_decimal_u16() {
    assert_eq!(parse_u16("4010"), Some(4010));
    assert_eq!(parse_u16("65535"), Some(65535));
    assert_eq!(parse_u16("65536"), None);
    assert_eq!(parse_u16(""), None);
    assert_eq!(parse_u16("+1"), Some(1));
    assert_eq!(parse_u16("1a"), None);
}

#[test]
fn server_arguments_repeat_the_options() {
    let cli = parse_cli_options(&args(&["./repo", "--info-url-prefix=/.i", "--port=4010"])).unwrap();

    assert_eq!(
        cli_args_for_server(&cli),
        vec!["./repo", "--port=4010", "--info-url-prefix=/.i"]
    );
}
