//! The repository configuration of the hook-running server: rules with
//! per-method switches, plugins fired by requests or run by hand, and
//! named tasks.
use vstd::prelude::*;

use crate::path::{components_start_with, PathError, WorkspacePath};
use crate::rules::{
    check_mount, check_path_rule, check_paths, first_path_error, lemma_mount_not_over_directory,
    lemma_no_path_error, lemma_same_views_same_error, mount_error, mount_target_path, mounts_parse,
    path_rule_error, PathRule,
};
use crate::setting_value::SettingValue;
use crate::settings::{
    check_serve_settings, free_of_glob_chars, is_valid_plugin_name, lemma_accepted_serve_settings,
    lemma_checks_in_plain_terms, name_well_formed, path_comps, plugin_name_ok, prefix_path, prefix_well_formed,
    spec_check_serve, spec_prefix_path, spec_reserved_paths, uses_reserved, ConfigError,
    ServeSettings,
};
use crate::text::{entry_keys, keys_ordered, same_text};

verus! {

/// Which methods a rule allows.
#[derive(Debug, Clone, Copy, PartialEq, Eq, Structural)]
pub struct PolicyPermissions {
    pub get: bool,
    pub post: bool,
    pub put: bool,
    pub delete: bool,
}

/// Whether a rule that does not mention `GET` allows it.
pub fn default_policy_get() -> (r: bool)
    ensures
        r,
{
    true
}

impl PolicyPermissions {
    /// Permissions that allow nothing.
    pub open spec fn deny_all_spec() -> PolicyPermissions {
        PolicyPermissions { get: false, post: false, put: false, delete: false }
    }

    /// Permissions that allow nothing.
    pub fn deny_all() -> (r: PolicyPermissions)
        ensures
            r == PolicyPermissions::deny_all_spec(),
    {
        PolicyPermissions { get: false, post: false, put: false, delete: false }
    }
}

/// One rule: a path and the methods allowed there.
#[derive(Debug)]
pub struct Policy {
    pub path: WorkspacePath,
    pub permissions: PolicyPermissions,
}

impl Clone for Policy {
    fn clone(&self) -> (r: Self)
        ensures
            r.path@ == self.path@,
            r.permissions == self.permissions,
    {
        Policy { path: self.path.clone(), permissions: self.permissions }
    }
}

/// One `[[plugin]]` entry.
#[derive(Debug)]
pub struct PluginConfig {
    pub name: String,
    pub runner: String,
    pub command: Vec<String>,
    /// `GET`, `POST`, `PUT`, `DELETE` or `manual`.
    pub trigger: String,
    /// The paths whose requests fire the plugin.
    pub path: Option<WorkspacePath>,
    /// Plugins to run first.
    pub deps: Vec<String>,
    pub mount: Option<String>,
    /// Plugin-specific settings, in key order.
    pub extra: Vec<(String, SettingValue)>,
}

impl PluginConfig {
    /// Well-formed: each setting name once, in ascending character order,
    /// as the settings table holds them.
    pub open spec fn wf(&self) -> bool {
        keys_ordered(entry_keys(self.extra@))
    }
}

/// A named list of plugins to run in order.
#[derive(Debug)]
pub struct TaskConfig {
    pub name: String,
    pub steps: Vec<String>,
}

/// The whole repository configuration.
#[derive(Debug)]
pub struct RepositoryConfig {
    pub name: String,
    pub serve: ServeSettings,
    pub policy: Vec<Policy>,
    pub plugin: Vec<PluginConfig>,
    pub task: Vec<TaskConfig>,
}

/// The paths of the policy rules.
pub open spec fn policy_paths(ps: Seq<Policy>) -> Seq<WorkspacePath> {
    ps.map_values(|p: Policy| p.path)
}

/// The mounts of the plugins.
pub open spec fn plugin_mounts(ps: Seq<PluginConfig>) -> Seq<Option<String>> {
    ps.map_values(|p: PluginConfig| p.mount)
}

/// Whether some plugin is called `name`.
pub open spec fn has_plugin(plugins: Seq<PluginConfig>, name: Seq<char>) -> bool {
    exists|j: int| 0 <= j < plugins.len() && (#[trigger] plugins[j]).name@ == name
}

/// The error the dependency `d` of `p` raises, if any.
pub open spec fn dependency_error(plugins: Seq<PluginConfig>, p: PluginConfig, d: String) -> Option<
    ConfigError,
> {
    if !plugin_name_ok(d@) {
        Some(ConfigError::InvalidDependencyName(d))
    } else if d@ == p.name@ {
        Some(ConfigError::SelfDependency(p.name))
    } else if !has_plugin(plugins, d@) {
        Some(ConfigError::MissingDependency(p.name, d))
    } else {
        None
    }
}

/// The first error among the dependencies of `p` from index `i` on.
pub open spec fn first_dependency_error(plugins: Seq<PluginConfig>, p: PluginConfig, i: int) -> Option<
    ConfigError,
>
    decreases p.deps@.len() - i,
{
    if i < 0 || i >= p.deps@.len() {
        None
    } else {
        match dependency_error(plugins, p, p.deps@[i]) {
            Some(e) => Some(e),
            None => first_dependency_error(plugins, p, i + 1),
        }
    }
}

/// The error raised by plugin `i`, if any.
pub open spec fn plugin_error(
    plugins: Seq<PluginConfig>,
    i: int,
    target_is_dir: bool,
    reserved: Seq<Seq<Seq<char>>>,
) -> Option<ConfigError> {
    let p = plugins[i];
    if !plugin_name_ok(p.name@) {
        Some(ConfigError::InvalidPluginName(p.name))
    } else if p.runner@ != "command"@ {
        Some(ConfigError::UnsupportedRunner(p.runner))
    } else if p.command@.len() == 0 {
        Some(ConfigError::EmptyCommand)
    } else if p.path matches Some(path) && path_rule_error(PathRule::PluginPath, path, reserved)
        is Some {
        path_rule_error(PathRule::PluginPath, p.path->Some_0, reserved)
    } else if first_dependency_error(plugins, p, 0) is Some {
        first_dependency_error(plugins, p, 0)
    } else if p.trigger@ == "manual"@ && p.path is Some {
        Some(ConfigError::ManualWithPath)
    } else if p.trigger@ != "manual"@ && p.path is None {
        Some(ConfigError::NonManualWithoutPath)
    } else {
        mount_error(plugin_mounts(plugins), i, target_is_dir, reserved)
    }
}

/// The first error among the plugins from index `i` on.
pub open spec fn first_plugin_error(
    plugins: Seq<PluginConfig>,
    dirs: Seq<bool>,
    reserved: Seq<Seq<Seq<char>>>,
    i: int,
) -> Option<ConfigError>
    decreases plugins.len() - i,
{
    if i < 0 || i >= plugins.len() {
        None
    } else {
        match plugin_error(plugins, i, dirs[i], reserved) {
            Some(e) => Some(e),
            None => first_plugin_error(plugins, dirs, reserved, i + 1),
        }
    }
}

/// The outcome of validating `c`, where `dirs[i]` tells whether plugin
/// `i`'s mount target is an existing directory of the repository.
pub open spec fn spec_validate(c: RepositoryConfig, dirs: Seq<bool>) -> Result<(), ConfigError> {
    if c.name@.len() == 0 {
        Err(ConfigError::NameEmpty)
    } else {
        match spec_check_serve(c.serve) {
            Err(e) => Err(e),
            Ok(reserved) => match first_path_error(
                PathRule::Policy,
                policy_paths(c.policy@),
                reserved,
                0,
            ) {
                Some(e) => Err(e),
                None => match first_plugin_error(c.plugin@, dirs, reserved, 0) {
                    Some(e) => Err(e),
                    None => Ok(()),
                },
            },
        }
    }
}

/// A name, three well-formed, pairwise different URL prefixes, and policy rules
/// that use no glob syntax and stay out of `.repo/` and out of the paths
/// the prefixes reserve.
pub open spec fn serve_and_policies_sound(c: RepositoryConfig) -> bool {
    &&& c.name@.len() > 0
    &&& prefix_well_formed(c.serve.plugin_url_prefix@)
    &&& prefix_well_formed(c.serve.policy_url_prefix@)
    &&& prefix_well_formed(c.serve.info_url_prefix@)
    &&& c.serve.plugin_url_prefix@ != c.serve.policy_url_prefix@
    &&& c.serve.plugin_url_prefix@ != c.serve.info_url_prefix@
    &&& c.serve.policy_url_prefix@ != c.serve.info_url_prefix@
    &&& spec_reserved_paths(c.serve) matches Ok(reserved) && forall|k: int|
        0 <= k < c.policy@.len() ==> free_of_glob_chars((#[trigger] c.policy@[k]).path.text())
            && !(c.policy@[k].path.comps().len() > 0 && c.policy@[k].path.comps()[0] == seq![
            '.',
            'r',
            'e',
            'p',
            'o',
        ]) && forall|r: int|
            0 <= r < reserved.len() ==> !components_start_with(
                c.policy@[k].path.comps(),
                #[trigger] reserved[r],
            )
}

/// A configuration that passes validation has three well-formed, pairwise
/// different URL prefixes, and policy rules that use no glob syntax and
/// stay out of `.repo/` and out of the paths the prefixes reserve.
pub proof fn lemma_validated_serve_and_policies(c: RepositoryConfig, dirs: Seq<bool>)
    requires
        spec_validate(c, dirs) is Ok,
    ensures
        serve_and_policies_sound(c),
{
    lemma_accepted_serve_settings(c.serve);
    lemma_checks_in_plain_terms(c.serve.plugin_url_prefix@);
    lemma_checks_in_plain_terms(c.serve.policy_url_prefix@);
    lemma_checks_in_plain_terms(c.serve.info_url_prefix@);
    let reserved = spec_check_serve(c.serve)->Ok_0;
    lemma_no_path_error(PathRule::Policy, policy_paths(c.policy@), reserved, 0);
    assert forall|k: int| 0 <= k < c.policy@.len() implies free_of_glob_chars(
        (#[trigger] c.policy@[k]).path.text(),
    ) && !(c.policy@[k].path.comps().len() > 0 && c.policy@[k].path.comps()[0] == seq![
        '.',
        'r',
        'e',
        'p',
        'o',
    ]) && forall|r: int|
        0 <= r < reserved.len() ==> !components_start_with(
            c.policy@[k].path.comps(),
            #[trigger] reserved[r],
        ) by {
        assert(policy_paths(c.policy@)[k] == c.policy@[k].path);
        assert(path_rule_error(PathRule::Policy, policy_paths(c.policy@)[k], reserved) is None);
        lemma_checks_in_plain_terms(c.policy@[k].path.text());
        assert forall|r: int| 0 <= r < reserved.len() implies !components_start_with(
            c.policy@[k].path.comps(),
            #[trigger] reserved[r],
        ) by {
            if components_start_with(c.policy@[k].path.comps(), reserved[r]) {
                assert(uses_reserved(c.policy@[k].path.comps(), reserved));
            }
        }
    }
}

/// No plugin from `i` on raises an error when none is the first.
pub proof fn lemma_no_plugin_error(
    plugins: Seq<PluginConfig>,
    dirs: Seq<bool>,
    reserved: Seq<Seq<Seq<char>>>,
    i: int,
)
    requires
        0 <= i,
        first_plugin_error(plugins, dirs, reserved, i) is None,
    ensures
        forall|k: int| i <= k < plugins.len() ==> plugin_error(plugins, k, dirs[k], reserved) is None,
    decreases plugins.len() - i,
{
    if i < plugins.len() {
        lemma_no_plugin_error(plugins, dirs, reserved, i + 1);
    }
}

/// A configuration that passes validation mounts no plugin over an
/// existing directory: a mount that denotes a repository path other than
/// the root has a target that is no directory.
pub proof fn lemma_validated_mounts_clear(c: RepositoryConfig, dirs: Seq<bool>)
    requires
        spec_validate(c, dirs) is Ok,
    ensures
        forall|i: int|
            0 <= i < c.plugin@.len() && (#[trigger] c.plugin@[i]).mount is Some && mount_target_path(
                c.plugin@[i].mount->Some_0@,
            ) is Some ==> !dirs[i],
{
    let reserved = spec_check_serve(c.serve)->Ok_0;
    lemma_no_plugin_error(c.plugin@, dirs, reserved, 0);
    assert forall|i: int|
        0 <= i < c.plugin@.len() && (#[trigger] c.plugin@[i]).mount is Some && mount_target_path(
            c.plugin@[i].mount->Some_0@,
        ) is Some implies !dirs[i] by {
        assert(plugin_error(c.plugin@, i, dirs[i], reserved) is None);
        assert(plugin_mounts(c.plugin@)[i] == c.plugin@[i].mount);
        lemma_mount_not_over_directory(plugin_mounts(c.plugin@), i, dirs[i], reserved);
    }
}

/// No dependency from `i` on raises an error when none is the first.
proof fn lemma_no_dependency_error(plugins: Seq<PluginConfig>, p: PluginConfig, i: int)
    requires
        0 <= i,
        first_dependency_error(plugins, p, i) is None,
    ensures
        forall|k: int| i <= k < p.deps@.len() ==> dependency_error(plugins, p, #[trigger] p.deps@[k]) is None,
    decreases p.deps@.len() - i,
{
    if i < p.deps@.len() {
        lemma_no_dependency_error(plugins, p, i + 1);
    }
}

/// Every plugin has a valid name and runs a non-empty command; it has a
/// request path exactly when it is not run by hand, and that path uses no
/// glob syntax and lies outside `.repo/`; each of its dependencies has a
/// valid name, is another plugin, and exists; and its mount, if any,
/// starts and ends with `/`.
pub open spec fn hook_plugins_sound(c: RepositoryConfig) -> bool {
    forall|i: int|
        0 <= i < c.plugin@.len() ==> {
            let p = #[trigger] c.plugin@[i];
            &&& name_well_formed(p.name@)
            &&& p.runner@ == "command"@
            &&& p.command@.len() > 0
            &&& (p.trigger@ == "manual"@ <==> p.path is None)
            &&& p.path matches Some(q) ==> free_of_glob_chars(q.text()) && !(q.comps().len() > 0
                && q.comps()[0] == seq!['.', 'r', 'e', 'p', 'o'])
            &&& forall|k: int|
                0 <= k < p.deps@.len() ==> name_well_formed((#[trigger] p.deps@[k])@) && p.deps@[k]@
                    != p.name@ && exists|j: int|
                    0 <= j < c.plugin@.len() && c.plugin@[j].name@ == p.deps@[k]@
            &&& p.mount matches Some(m) ==> m@.len() > 0 && m@[0] == '/' && m@[m@.len() - 1] == '/'
        }
}

/// In a configuration that passes validation every plugin meets
/// [`hook_plugins_sound`].
pub proof fn lemma_validated_hook_plugins(c: RepositoryConfig, dirs: Seq<bool>)
    requires
        spec_validate(c, dirs) is Ok,
    ensures
        hook_plugins_sound(c),
{
    let reserved = spec_check_serve(c.serve)->Ok_0;
    lemma_no_plugin_error(c.plugin@, dirs, reserved, 0);
    assert forall|i: int| 0 <= i < c.plugin@.len() implies {
        let p = #[trigger] c.plugin@[i];
        &&& name_well_formed(p.name@)
        &&& p.runner@ == "command"@
        &&& p.command@.len() > 0
        &&& (p.trigger@ == "manual"@ <==> p.path is None)
        &&& p.path matches Some(q) ==> free_of_glob_chars(q.text()) && !(q.comps().len() > 0
            && q.comps()[0] == seq!['.', 'r', 'e', 'p', 'o'])
        &&& forall|k: int|
            0 <= k < p.deps@.len() ==> name_well_formed((#[trigger] p.deps@[k])@) && p.deps@[k]@
                != p.name@ && exists|j: int|
                0 <= j < c.plugin@.len() && c.plugin@[j].name@ == p.deps@[k]@
        &&& p.mount matches Some(m) ==> m@.len() > 0 && m@[0] == '/' && m@[m@.len() - 1] == '/'
    } by {
        let p = c.plugin@[i];
        assert(plugin_error(c.plugin@, i, dirs[i], reserved) is None);
        lemma_checks_in_plain_terms(p.name@);
        lemma_no_dependency_error(c.plugin@, p, 0);
        assert forall|k: int| 0 <= k < p.deps@.len() implies name_well_formed(
            (#[trigger] p.deps@[k])@,
        ) && p.deps@[k]@ != p.name@ && exists|j: int|
            0 <= j < c.plugin@.len() && c.plugin@[j].name@ == p.deps@[k]@ by {
            assert(dependency_error(c.plugin@, p, p.deps@[k]) is None);
            lemma_checks_in_plain_terms(p.deps@[k]@);
        }
        if let Some(q) = p.path {
            assert(path_rule_error(PathRule::PluginPath, q, reserved) is None);
            lemma_checks_in_plain_terms(q.text());
        }
        if let Some(m) = p.mount {
            assert(plugin_mounts(c.plugin@)[i] == p.mount);
            assert(m@.subrange(0, 1)[0] == m@[0]);
            assert(m@.subrange(m@.len() - 1, m@.len() as int)[0] == m@[m@.len() - 1]);
        }
    }
}

/// The path of the implicit rule of each mounted plugin, in plugin order;
/// or the first mount that is no repository path.
pub open spec fn mount_rule_paths(plugins: Seq<PluginConfig>) -> Result<
    Seq<(Seq<Seq<char>>, bool)>,
    PathError,
>
    decreases plugins.len(),
{
    if plugins.len() == 0 {
        Ok(Seq::empty())
    } else {
        let rest = mount_rule_paths(plugins.drop_first());
        match plugins[0].mount {
            None => rest,
            Some(m) => match spec_prefix_path(m@) {
                Err(e) => Err(e),
                Ok(p) => match rest {
                    Err(e) => Err(e),
                    Ok(r) => Ok(seq![p] + r),
                },
            },
        }
    }
}

/// The rules built so far followed by what the remaining plugins yield.
pub open spec fn prepend_rule_paths(
    done: Seq<Policy>,
    rest: Result<Seq<(Seq<Seq<char>>, bool)>, PathError>,
) -> Result<Seq<(Seq<Seq<char>>, bool)>, PathError> {
    match rest {
        Err(e) => Err(e),
        Ok(r) => Ok(done.map_values(|p: Policy| p.path@) + r),
    }
}

/// The permissions of an implicit mount rule: read only.
pub open spec fn read_only() -> PolicyPermissions {
    PolicyPermissions { get: true, post: false, put: false, delete: false }
}

impl RepositoryConfig {
    /// Puts, before the configured rules, one read-only rule per mounted
    /// plugin for its mount path.
    pub fn insert_implicit_mount_policies(&mut self) -> (r: Result<(), PathError>)
        ensures
            final(self).name == old(self).name,
            final(self).serve == old(self).serve,
            final(self).plugin == old(self).plugin,
            final(self).task == old(self).task,
            match r {
                Err(e) => mount_rule_paths(old(self).plugin@) == Err::<
                    Seq<(Seq<Seq<char>>, bool)>,
                    PathError,
                >(e) && final(self).policy == old(self).policy,
                Ok(()) => mount_rule_paths(old(self).plugin@) matches Ok(paths)
                    && final(self).policy@.len() == paths.len() + old(self).policy@.len() && (forall|
                    q: int,
                |
                    0 <= q < paths.len() ==> (#[trigger] final(self).policy@[q]).path@ == paths[q]
                        && final(self).policy@[q].permissions == read_only()) && (forall|q: int|
                    0 <= q < old(self).policy@.len() ==> #[trigger] final(self).policy@[paths.len()
                        + q] == old(self).policy@[q]),
            },
    {
        let mut implicit: Vec<Policy> = Vec::new();
        let mut i: usize = 0;
        proof {
            assert(self.plugin@.skip(0) =~= self.plugin@);
            match mount_rule_paths(self.plugin@) {
                Ok(r) => {
                    assert(implicit@.map_values(|p: Policy| p.path@) + r =~= r);
                },
                Err(_) => {},
            }
        }
        while i < self.plugin.len()
            invariant
                i <= self.plugin@.len(),
                mount_rule_paths(self.plugin@) == prepend_rule_paths(
                    implicit@,
                    mount_rule_paths(self.plugin@.skip(i as int)),
                ),
                forall|q: int| 0 <= q < implicit@.len() ==> (#[trigger] implicit@[q]).permissions
                    == read_only(),
            decreases self.plugin@.len() - i,
        {
            let ghost rest = self.plugin@.skip(i as int);
            assert(rest.drop_first() =~= self.plugin@.skip(i + 1));
            match &self.plugin[i].mount {
                None => {},
                Some(mount) => {
                    match prefix_path(mount.as_str()) {
                        Err(e) => {
                            return Err(e);
                        },
                        Ok(path) => {
                            let ghost before = implicit@;
                            implicit.push(
                                Policy {
                                    path,
                                    permissions: PolicyPermissions {
                                        get: true,
                                        post: false,
                                        put: false,
                                        delete: false,
                                    },
                                },
                            );
                            proof {
                                match mount_rule_paths(rest.drop_first()) {
                                    Ok(r) => {
                                        assert(implicit@.map_values(|p: Policy| p.path@) + r
                                            =~= before.map_values(|p: Policy| p.path@) + (seq![
                                            implicit@.last().path@,
                                        ] + r));
                                    },
                                    Err(_) => {},
                                }
                            }
                        },
                    }
                },
            }
            i = i + 1;
        }
        assert(self.plugin@.skip(self.plugin@.len() as int) =~= Seq::<PluginConfig>::empty());
        let mut combined = implicit;
        combined.append(&mut self.policy);
        self.policy = combined;
        Ok(())
    }

    /// The mounts of the plugins, in plugin order.
    pub fn mounts(&self) -> (r: Vec<Option<String>>)
        ensures
            r@ == plugin_mounts(self.plugin@),
    {
        let mut out: Vec<Option<String>> = Vec::new();
        let mut i: usize = 0;
        while i < self.plugin.len()
            invariant
                i <= self.plugin@.len(),
                out@ == plugin_mounts(self.plugin@).subrange(0, i as int),
            decreases self.plugin@.len() - i,
        {
            let m = match &self.plugin[i].mount {
                Some(m) => Some(m.clone()),
                None => None,
            };
            out.push(m);
            assert(out@ =~= plugin_mounts(self.plugin@).subrange(0, i + 1));
            i = i + 1;
        }
        assert(plugin_mounts(self.plugin@).subrange(0, self.plugin@.len() as int) =~= plugin_mounts(
            self.plugin@,
        ));
        out
    }

    /// The policy paths, in rule order.
    fn policy_path_list(&self) -> (r: Vec<WorkspacePath>)
        ensures
            r@.len() == self.policy@.len(),
            forall|k: int| 0 <= k < r@.len() ==> (#[trigger] r@[k])@ == self.policy@[k].path@,
    {
        let mut out: Vec<WorkspacePath> = Vec::new();
        let mut i: usize = 0;
        while i < self.policy.len()
            invariant
                i <= self.policy@.len(),
                out@.len() == i,
                forall|k: int| 0 <= k < i ==> (#[trigger] out@[k])@ == self.policy@[k].path@,
            decreases self.policy@.len() - i,
        {
            out.push(self.policy[i].path.clone());
            i = i + 1;
        }
        out
    }

    /// Checks the configuration rules. `mount_target_is_dir[i]` tells
    /// whether plugin `i`'s mount target already exists as a directory of
    /// the repository (see [`crate::rules::mount_targets`]).
    pub fn validate(&self, mount_target_is_dir: &Vec<bool>) -> (r: Result<(), ConfigError>)
        requires
            mount_target_is_dir@.len() == self.plugin@.len(),
            mounts_parse(plugin_mounts(self.plugin@)),
        ensures
            r == spec_validate(*self, mount_target_is_dir@),
            r is Ok ==> serve_and_policies_sound(*self),
    {
        if self.name.as_str().unicode_len() == 0 {
            return Err(ConfigError::NameEmpty);
        }
        let reserved = check_serve_settings(&self.serve)?;
        let ghost rs = path_comps(reserved@);
        let paths = self.policy_path_list();
        proof {
            assert forall|k: int| 0 <= k < paths@.len() implies (#[trigger] paths@[k])@
                == policy_paths(self.policy@)[k]@ by {
                assert(policy_paths(self.policy@)[k] == self.policy@[k].path);
            }
            lemma_same_views_same_error(PathRule::Policy, paths@, policy_paths(self.policy@), rs, 0);
        }
        match check_paths(PathRule::Policy, &paths, &reserved) {
            Some(e) => {
                return Err(e);
            },
            None => {},
        }
        let mounts = self.mounts();
        let mut i: usize = 0;
        while i < self.plugin.len()
            invariant
                i <= self.plugin@.len(),
                mount_target_is_dir@.len() == self.plugin@.len(),
                mounts@ == plugin_mounts(self.plugin@),
                mounts_parse(mounts@),
                rs == path_comps(reserved@),
                self.name@.len() > 0,
                spec_check_serve(self.serve) == Ok::<Seq<Seq<Seq<char>>>, ConfigError>(rs),
                first_path_error(PathRule::Policy, policy_paths(self.policy@), rs, 0) is None,
                first_plugin_error(self.plugin@, mount_target_is_dir@, rs, 0) == first_plugin_error(
                    self.plugin@,
                    mount_target_is_dir@,
                    rs,
                    i as int,
                ),
            decreases self.plugin@.len() - i,
        {
            match self.check_plugin(i, &mounts, mount_target_is_dir[i], &reserved) {
                Some(e) => {
                    return Err(e);
                },
                None => {},
            }
            i = i + 1;
        }
        proof {
            assert(spec_validate(*self, mount_target_is_dir@) is Ok);
            lemma_validated_serve_and_policies(*self, mount_target_is_dir@);
        }
        Ok(())
    }

    /// The error plugin `i` raises, if any.
    fn check_plugin(
        &self,
        i: usize,
        mounts: &Vec<Option<String>>,
        target_is_dir: bool,
        reserved: &Vec<WorkspacePath>,
    ) -> (r: Option<ConfigError>)
        requires
            i < self.plugin@.len(),
            mounts@ == plugin_mounts(self.plugin@),
            mounts_parse(mounts@),
        ensures
            r == plugin_error(self.plugin@, i as int, target_is_dir, path_comps(reserved@)),
    {
        let p = &self.plugin[i];
        if !is_valid_plugin_name(p.name.as_str()) {
            return Some(ConfigError::InvalidPluginName(p.name.clone()));
        }
        if !same_text(p.runner.as_str(), "command") {
            return Some(ConfigError::UnsupportedRunner(p.runner.clone()));
        }
        if p.command.len() == 0 {
            return Some(ConfigError::EmptyCommand);
        }
        match &p.path {
            Some(path) => {
                match check_path_rule(PathRule::PluginPath, path, reserved) {
                    Some(e) => {
                        return Some(e);
                    },
                    None => {},
                }
            },
            None => {},
        }
        match self.check_dependencies(i) {
            Some(e) => {
                return Some(e);
            },
            None => {},
        }
        let manual = same_text(p.trigger.as_str(), "manual");
        if manual && p.path.is_some() {
            return Some(ConfigError::ManualWithPath);
        }
        if !manual && p.path.is_none() {
            return Some(ConfigError::NonManualWithoutPath);
        }
        check_mount(mounts, i, target_is_dir, reserved)
    }

    /// The first error among the dependencies of plugin `i`.
    fn check_dependencies(&self, i: usize) -> (r: Option<ConfigError>)
        requires
            i < self.plugin@.len(),
        ensures
            r == first_dependency_error(self.plugin@, self.plugin@[i as int], 0),
    {
        let p = &self.plugin[i];
        let mut k: usize = 0;
        while k < p.deps.len()
            invariant
                i < self.plugin@.len(),
                *p == self.plugin@[i as int],
                k <= p.deps@.len(),
                first_dependency_error(self.plugin@, *p, 0) == first_dependency_error(
                    self.plugin@,
                    *p,
                    k as int,
                ),
            decreases p.deps@.len() - k,
        {
            let d = &p.deps[k];
            if !is_valid_plugin_name(d.as_str()) {
                return Some(ConfigError::InvalidDependencyName(d.clone()));
            }
            if same_text(d.as_str(), p.name.as_str()) {
                return Some(ConfigError::SelfDependency(p.name.clone()));
            }
            match self.find_plugin_index(d.as_str()) {
                None => {
                    return Some(ConfigError::MissingDependency(p.name.clone(), d.clone()));
                },
                Some(j) => {
                    assert((self.plugin@[j as int]).name@ == d@);
                    assert(has_plugin(self.plugin@, d@));
                },
            }
            k = k + 1;
        }
        None
    }

    /// The index of the first plugin called `name`.
    pub fn find_plugin_index(&self, name: &str) -> (r: Option<usize>)
        ensures
            match r {
                Some(k) => k < self.plugin@.len() && self.plugin@[k as int].name@ == name@ && forall|
                    j: int,
                | 0 <= j < k ==> self.plugin@[j].name@ != name@,
                None => forall|j: int| 0 <= j < self.plugin@.len() ==> self.plugin@[j].name@ != name@,
            },
    {
        let mut i: usize = 0;
        while i < self.plugin.len()
            invariant
                i <= self.plugin@.len(),
                forall|k: int| 0 <= k < i ==> self.plugin@[k].name@ != name@,
            decreases self.plugin@.len() - i,
        {
            if same_text(self.plugin[i].name.as_str(), name) {
                return Some(i);
            }
            i = i + 1;
        }
        None
    }

    /// The first plugin called `name`.
    pub fn find_plugin(&self, name: &str) -> (r: Option<&PluginConfig>)
        ensures
            match r {
                Some(p) => exists|i: int|
                    0 <= i < self.plugin@.len() && self.plugin@[i] == *p && p.name@ == name@
                        && forall|k: int| 0 <= k < i ==> self.plugin@[k].name@ != name@,
                None => forall|k: int| 0 <= k < self.plugin@.len() ==> self.plugin@[k].name@ != name@,
            },
    {
        match self.find_plugin_index(name) {
            Some(k) => Some(&self.plugin[k]),
            None => None,
        }
    }

    /// The first task called `name`.
    pub fn find_task(&self, name: &str) -> (r: Option<&TaskConfig>)
        ensures
            match r {
                Some(t) => exists|i: int|
                    0 <= i < self.task@.len() && self.task@[i] == *t && t.name@ == name@ && forall|
                        k: int,
                    | 0 <= k < i ==> self.task@[k].name@ != name@,
                None => forall|k: int| 0 <= k < self.task@.len() ==> self.task@[k].name@ != name@,
            },
    {
        let mut i: usize = 0;
        while i < self.task.len()
            invariant
                i <= self.task@.len(),
                forall|k: int| 0 <= k < i ==> self.task@[k].name@ != name@,
            decreases self.task@.len() - i,
        {
            if same_text(self.task[i].name.as_str(), name) {
                return Some(&self.task[i]);
            }
            i = i + 1;
        }
        None
    }
}

} // verus!
