use workspace_fs::hooks::config::{Policy, PolicyPermissions};
use workspace_fs::hooks::policy::{inspect_policy_rules, resolve_policy};
use workspace_fs::path::WorkspacePath;
use workspace_fs::policy::{select_rule, MethodKind, SelectionReason};

fn workspace_path(path: &str) -> WorkspacePath {
    WorkspacePath::from_url(path).unwrap()
}

fn get_only() -> PolicyPermissions {
    PolicyPermissions {
        get: true,
        post: false,
        put: false,
        delete: false,
    }
}

#[test]
fn more_specific_child_policy_wins() {
    let rules = vec![
        Policy {
            path: WorkspacePath::from_path_str("docs/").unwrap(),
            permissions: PolicyPermissions::deny_all(),
        },
        Policy {
            path: WorkspacePath::from_path_str("docs/public/").unwrap(),
            permissions: get_only(),
        },
    ];

    assert_eq!(
        resolve_policy(MethodKind::Get, &rules, &workspace_path("/docs/public/index.md")),
        Some(true)
    );
}

#[test]
fn equal_specificity_uses_later_rule() {
    let rules = vec![
        Policy {
            path: WorkspacePath::from_path_str("docs/").unwrap(),
            permissions: get_only(),
        },
        Policy {
            path: WorkspacePath::from_path_str("docs/").unwrap(),
            permissions: PolicyPermissions::deny_all(),
        },
    ];

    assert_eq!(
        resolve_policy(MethodKind::Get, &rules, &workspace_path("/docs/a.md")),
        Some(false)
    );
}

#[test]
fn no_matching_policy_denies_by_default() {
    let rules = vec![Policy {
        path: WorkspacePath::from_path_str("docs/").unwrap(),
        permissions: get_only(),
    }];

    assert_eq!(
        resolve_policy(MethodKind::Get, &rules, &workspace_path("/notes/a.md")),
        None
    );
}

#[test]
fn root_policy_applies_recursively() {
    let rules = vec![Policy {
        path: WorkspacePath::from_path_str(".").unwrap(),
        permissions: get_only(),
    }];

    assert_eq!(
        resolve_policy(MethodKind::Get, &rules, &workspace_path("/folder1/")),
        Some(true)
    );
    assert_eq!(
        resolve_policy(MethodKind::Get, &rules, &workspace_path("/folder1/test1.md")),
        Some(true)
    );
}

#[test]
fn inspection_reports_matches_and_selected_rule() {
    let rules = vec![
        Policy {
            path: WorkspacePath::from_path_str("docs/private/a.md").unwrap(),
            permissions: PolicyPermissions {
                get: true,
                post: false,
                put: true,
                delete: false,
            },
        },
        Policy {
            path: WorkspacePath::from_path_str("docs/private/").unwrap(),
            permissions: PolicyPermissions::deny_all(),
        },
    ];

    let inspection = inspect_policy_rules(&rules, &workspace_path("/docs/private/a.md"));

    assert_eq!(inspection.matches.len(), 2);
    let selected = inspection.selected.unwrap();
    assert_eq!(selected.path.as_str(), "docs/private/a.md");
    assert_eq!(selected.reason.as_str(), "first_match");
    assert!(inspection.effective.get);
}

#[test]
fn inspection_without_match_is_deny_all() {
    let rules = vec![Policy {
        path: WorkspacePath::from_path_str("docs/").unwrap(),
        permissions: get_only(),
    }];

    let inspection = inspect_policy_rules(&rules, &workspace_path("/notes/a.md"));

    assert!(inspection.matches.is_empty());
    assert!(inspection.selected.is_none());
    assert_eq!(inspection.effective, PolicyPermissions::deny_all());
}

#[test]
fn selection_reasons_follow_specificity_and_order() {
    let rules = vec![
        WorkspacePath::from_path_str("docs/").unwrap(),
        WorkspacePath::from_path_str("docs/a/").unwrap(),
        WorkspacePath::from_path_str("docs/a/").unwrap(),
        WorkspacePath::from_path_str("docs/").unwrap(),
    ];

    let selection = select_rule(&rules, &workspace_path("/docs/a/b.md"));

    assert_eq!(selection.matches, vec![0, 1, 2, 3]);
    assert_eq!(selection.selected, Some((2, SelectionReason::LaterRule)));

    let selection = select_rule(&rules[0..2].to_vec(), &workspace_path("/docs/a/b.md"));
    assert_eq!(selection.selected, Some((1, SelectionReason::MoreSpecific)));
}

#[test]
fn file_rule_matches_only_that_file() {
    let rules = vec![Policy {
        path: WorkspacePath::from_path_str("docs/a.md").unwrap(),
        permissions: get_only(),
    }];

    assert_eq!(
        resolve_policy(MethodKind::Get, &rules, &workspace_path("/docs/a.md")),
        Some(true)
    );
    assert_eq!(
        resolve_policy(MethodKind::Get, &rules, &workspace_path("/docs/a.md/x")),
        None
    );
    assert_eq!(
        resolve_policy(MethodKind::Post, &rules, &workspace_path("/docs/a.md")),
        Some(false)
    );
}
