//! Rules that every repository configuration enforces on the paths it
//! names: policy paths, ignored paths, plugin paths and plugin mounts.
use vstd::prelude::*;

use crate::path::{components_text, join_path, repo_dir_name, PathError, WorkspacePath};
use crate::settings::{
    contains_glob_metachar, has_glob, path_comps, path_uses_reserved_url_prefix, prefix_path,
    spec_prefix_path, uses_reserved, ConfigError,
};
use crate::text::{chars_of, ends_with_chars, has_prefix, has_suffix, same_text, starts_with_chars};

verus! {

/// Which kind of configured path a check is about.
#[derive(Debug, Clone, Copy, PartialEq, Eq, Structural)]
pub enum PathRule {
    Policy,
    Ignore,
    PluginPath,
}

/// Whether the path lies inside `.repo/`.
pub open spec fn is_repo_path(p: WorkspacePath) -> bool {
    p.comps().len() > 0 && p.comps()[0] == repo_dir_name()
}

/// The error a configured path raises under `rule`, if any: ignored paths
/// must not be the root; no path may use glob syntax, lie inside `.repo/`
/// or lie under a reserved URL prefix.
pub open spec fn path_rule_error(
    rule: PathRule,
    p: WorkspacePath,
    reserved: Seq<Seq<Seq<char>>>,
) -> Option<ConfigError> {
    if rule == PathRule::Ignore && p.comps().len() == 0 {
        Some(ConfigError::IgnoreRoot)
    } else if has_glob(p.text()) {
        Some(
            match rule {
                PathRule::Policy => ConfigError::PolicyGlob,
                PathRule::Ignore => ConfigError::IgnoreGlob,
                PathRule::PluginPath => ConfigError::PluginPathGlob,
            },
        )
    } else if is_repo_path(p) {
        Some(
            match rule {
                PathRule::Policy => ConfigError::PolicyRepo,
                PathRule::Ignore => ConfigError::IgnoreRepo,
                PathRule::PluginPath => ConfigError::PluginPathRepo,
            },
        )
    } else if uses_reserved(p.comps(), reserved) {
        Some(
            match rule {
                PathRule::Policy => ConfigError::PolicyReservedPrefix,
                PathRule::Ignore => ConfigError::IgnoreReservedPrefix,
                PathRule::PluginPath => ConfigError::PluginPathReservedPrefix,
            },
        )
    } else {
        None
    }
}

/// The first error among `paths[i..]` under `rule`.
pub open spec fn first_path_error(
    rule: PathRule,
    paths: Seq<WorkspacePath>,
    reserved: Seq<Seq<Seq<char>>>,
    i: int,
) -> Option<ConfigError>
    decreases paths.len() - i,
{
    if i < 0 || i >= paths.len() {
        None
    } else {
        match path_rule_error(rule, paths[i], reserved) {
            Some(e) => Some(e),
            None => first_path_error(rule, paths, reserved, i + 1),
        }
    }
}

/// The first error depends only on what the paths denote.
pub proof fn lemma_same_views_same_error(
    rule: PathRule,
    a: Seq<WorkspacePath>,
    b: Seq<WorkspacePath>,
    reserved: Seq<Seq<Seq<char>>>,
    i: int,
)
    requires
        a.len() == b.len(),
        forall|k: int| 0 <= k < a.len() ==> (#[trigger] a[k])@ == b[k]@,
    ensures
        first_path_error(rule, a, reserved, i) == first_path_error(rule, b, reserved, i),
    decreases a.len() - i,
{
    if 0 <= i < a.len() {
        assert(a[i]@ == b[i]@);
        lemma_same_views_same_error(rule, a, b, reserved, i + 1);
    }
}

/// When no path from `i` on raises an error, none of them does.
pub proof fn lemma_no_path_error(
    rule: PathRule,
    paths: Seq<WorkspacePath>,
    reserved: Seq<Seq<Seq<char>>>,
    i: int,
)
    requires
        0 <= i,
        first_path_error(rule, paths, reserved, i) is None,
    ensures
        forall|k: int| i <= k < paths.len() ==> path_rule_error(rule, #[trigger] paths[k], reserved) is None,
    decreases paths.len() - i,
{
    if i < paths.len() {
        lemma_no_path_error(rule, paths, reserved, i + 1);
    }
}

/// A mount that raises no error starts and ends with `/` and is shared
/// by no other plugin.
pub proof fn lemma_mount_accepted(
    mounts: Seq<Option<String>>,
    i: int,
    target_is_dir: bool,
    reserved: Seq<Seq<Seq<char>>>,
)
    requires
        0 <= i < mounts.len(),
        mount_error(mounts, i, target_is_dir, reserved) is None,
    ensures
        mounts[i] matches Some(m) ==> mount_slashes_ok(m@) && forall|j: int|
            0 <= j < mounts.len() && j != i ==> !holds_text(#[trigger] mounts[j], m@),
{
    if let Some(m) = mounts[i] {
        assert forall|j: int| 0 <= j < mounts.len() && j != i implies !holds_text(
            #[trigger] mounts[j],
            m@,
        ) by {
            if holds_text(mounts[j], m@) {
                assert(mount_shared(mounts, i, m@));
            }
        }
    }
}

/// A mount that raises no error and denotes a path other than the root
/// does not lie over an existing directory.
pub proof fn lemma_mount_not_over_directory(
    mounts: Seq<Option<String>>,
    i: int,
    target_is_dir: bool,
    reserved: Seq<Seq<Seq<char>>>,
)
    requires
        0 <= i < mounts.len(),
        mount_error(mounts, i, target_is_dir, reserved) is None,
        mounts[i] is Some,
        mount_target_path(mounts[i]->Some_0@) is Some,
    ensures
        !target_is_dir,
{
}

/// Checks one configured path.
pub fn check_path_rule(rule: PathRule, p: &WorkspacePath, reserved: &Vec<WorkspacePath>) -> (r:
    Option<ConfigError>)
    ensures
        r == path_rule_error(rule, *p, path_comps(reserved@)),
{
    if rule == PathRule::Ignore && p.depth() == 0 {
        return Some(ConfigError::IgnoreRoot);
    }
    if contains_glob_metachar(p.as_str()) {
        return Some(
            match rule {
                PathRule::Policy => ConfigError::PolicyGlob,
                PathRule::Ignore => ConfigError::IgnoreGlob,
                PathRule::PluginPath => ConfigError::PluginPathGlob,
            },
        );
    }
    if p.is_reserved() {
        return Some(
            match rule {
                PathRule::Policy => ConfigError::PolicyRepo,
                PathRule::Ignore => ConfigError::IgnoreRepo,
                PathRule::PluginPath => ConfigError::PluginPathRepo,
            },
        );
    }
    if path_uses_reserved_url_prefix(p, reserved) {
        return Some(
            match rule {
                PathRule::Policy => ConfigError::PolicyReservedPrefix,
                PathRule::Ignore => ConfigError::IgnoreReservedPrefix,
                PathRule::PluginPath => ConfigError::PluginPathReservedPrefix,
            },
        );
    }
    None
}

/// Checks `paths` in order and returns the first error.
pub fn check_paths(rule: PathRule, paths: &Vec<WorkspacePath>, reserved: &Vec<WorkspacePath>) -> (r:
    Option<ConfigError>)
    ensures
        r == first_path_error(rule, paths@, path_comps(reserved@), 0),
{
    let ghost rs = path_comps(reserved@);
    let mut i: usize = 0;
    while i < paths.len()
        invariant
            i <= paths@.len(),
            rs == path_comps(reserved@),
            first_path_error(rule, paths@, rs, 0) == first_path_error(rule, paths@, rs, i as int),
        decreases paths@.len() - i,
    {
        match check_path_rule(rule, &paths[i], reserved) {
            Some(e) => {
                return Some(e);
            },
            None => {},
        }
        i = i + 1;
    }
    None
}

/// Whether a mount text starts and ends with `/`.
pub open spec fn mount_slashes_ok(m: Seq<char>) -> bool {
    has_prefix(m, seq!['/']) && has_suffix(m, seq!['/'])
}

/// Every mount that starts and ends with `/` denotes a repository path.
pub open spec fn mounts_parse(mounts: Seq<Option<String>>) -> bool {
    forall|i: int|
        0 <= i < mounts.len() ==> match #[trigger] mounts[i] {
            Some(m) => mount_slashes_ok(m@) ==> spec_prefix_path(m@) is Ok,
            None => true,
        }
}

/// Whether `o` holds a text equal to `m`.
pub open spec fn holds_text(o: Option<String>, m: Seq<char>) -> bool {
    match o {
        Some(x) => x@ == m,
        None => false,
    }
}

/// Whether another mount than the `i`-th has the text `m`.
pub open spec fn mount_shared(mounts: Seq<Option<String>>, i: int, m: Seq<char>) -> bool {
    exists|j: int| 0 <= j < mounts.len() && j != i && holds_text(#[trigger] mounts[j], m)
}

/// Whether the mount `m` denotes a repository path other than the root,
/// and which one.
pub open spec fn mount_target_path(m: Seq<char>) -> Option<Seq<Seq<char>>> {
    if mount_slashes_ok(m) {
        match spec_prefix_path(m) {
            Ok(p) => if p.0.len() > 0 {
                Some(p.0)
            } else {
                None
            },
            Err(_) => None,
        }
    } else {
        None
    }
}

/// The error raised by the `i`-th mount, given whether its target is an
/// existing directory of the repository.
pub open spec fn mount_error(
    mounts: Seq<Option<String>>,
    i: int,
    target_is_dir: bool,
    reserved: Seq<Seq<Seq<char>>>,
) -> Option<ConfigError> {
    match mounts[i] {
        None => None,
        Some(m) => {
            if !mount_slashes_ok(m@) {
                Some(ConfigError::MountSlashes)
            } else {
                let rel = spec_prefix_path(m@)->Ok_0.0;
                if uses_reserved(rel, reserved) {
                    Some(ConfigError::MountReservedPrefix)
                } else if rel.len() > 0 && target_is_dir {
                    Some(ConfigError::MountConflict(m))
                } else if mount_shared(mounts, i, m@) {
                    Some(ConfigError::DuplicateMount(m))
                } else {
                    None
                }
            }
        },
    }
}

/// Checks the `i`-th mount.
pub fn check_mount(
    mounts: &Vec<Option<String>>,
    i: usize,
    target_is_dir: bool,
    reserved: &Vec<WorkspacePath>,
) -> (r: Option<ConfigError>)
    requires
        i < mounts@.len(),
        mounts_parse(mounts@),
    ensures
        r == mount_error(mounts@, i as int, target_is_dir, path_comps(reserved@)),
{
    match &mounts[i] {
        None => None,
        Some(m) => {
            let mc = chars_of(m.as_str());
            let slash: Vec<char> = vec!['/'];
            assert(slash@ =~= seq!['/']);
            if !(starts_with_chars(&mc, &slash) && ends_with_chars(&mc, &slash)) {
                return Some(ConfigError::MountSlashes);
            }
            assert(spec_prefix_path(m@) is Ok) by {
                assert(match mounts@[i as int] {
                    Some(m) => mount_slashes_ok(m@) ==> spec_prefix_path(m@) is Ok,
                    None => true,
                });
            }
            let rel = match prefix_path(m.as_str()) {
                Ok(rel) => rel,
                Err(_) => {
                    return None;
                },
            };
            if path_uses_reserved_url_prefix(&rel, reserved) {
                return Some(ConfigError::MountReservedPrefix);
            }
            if rel.depth() > 0 && target_is_dir {
                return Some(ConfigError::MountConflict(m.clone()));
            }
            let mut j: usize = 0;
            while j < mounts.len()
                invariant
                    j <= mounts@.len(),
                    i < mounts@.len(),
                    mounts@[i as int] == Some(*m),
                    mount_slashes_ok(m@),
                    spec_prefix_path(m@) == Ok::<(Seq<Seq<char>>, bool), PathError>(rel@),
                    !uses_reserved(rel.comps(), path_comps(reserved@)),
                    !(rel.comps().len() > 0 && target_is_dir),
                    forall|k: int| 0 <= k < j && k != i ==> !holds_text(#[trigger] mounts@[k], m@),
                decreases mounts@.len() - j,
            {
                if j != i {
                    match &mounts[j] {
                        Some(other) => {
                            if same_text(other.as_str(), m.as_str()) {
                                assert(holds_text(mounts@[j as int], m@));
                                assert(mount_shared(mounts@, i as int, m@));
                                return Some(ConfigError::DuplicateMount(m.clone()));
                            }
                        },
                        None => {},
                    }
                }
                j = j + 1;
            }
            None
        },
    }
}

/// For each mount, the filesystem path whose being a directory decides
/// whether the mount conflicts with the repository: `repository_root`
/// joined with the path the mount denotes, for mounts that denote a
/// repository path other than the root.
pub fn mount_targets(mounts: &Vec<Option<String>>, repository_root: &str) -> (r: Vec<Option<String>>)
    ensures
        r@.len() == mounts@.len(),
        forall|i: int|
            0 <= i < r@.len() ==> match #[trigger] r@[i] {
                Some(t) => (mounts@[i] matches Some(m) && mount_target_path(m@) matches Some(p) && t@
                    == join_path(repository_root@, components_text(p))),
                None => !(mounts@[i] matches Some(m) && mount_target_path(m@) is Some),
            },
{
    let mut out: Vec<Option<String>> = Vec::new();
    let mut i: usize = 0;
    while i < mounts.len()
        invariant
            i <= mounts@.len(),
            out@.len() == i,
            forall|k: int|
                0 <= k < i ==> match #[trigger] out@[k] {
                    Some(t) => (mounts@[k] matches Some(m) && mount_target_path(m@) matches Some(p)
                        && t@ == join_path(repository_root@, components_text(p))),
                    None => !(mounts@[k] matches Some(m) && mount_target_path(m@) is Some),
                },
        decreases mounts@.len() - i,
    {
        let mut target: Option<String> = None;
        match &mounts[i] {
            None => {},
            Some(m) => {
                let mc = chars_of(m.as_str());
                let slash: Vec<char> = vec!['/'];
                assert(slash@ =~= seq!['/']);
                if starts_with_chars(&mc, &slash) && ends_with_chars(&mc, &slash) {
                    match prefix_path(m.as_str()) {
                        Ok(rel) => {
                            if rel.depth() > 0 {
                                target = Some(rel.join_to(repository_root));
                            }
                        },
                        Err(_) => {},
                    }
                }
            },
        }
        out.push(target);
        i = i + 1;
    }
    out
}

} // verus!
