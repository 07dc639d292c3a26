//! The server's repository configuration (`.repo/config.toml`) once read:
//! the rules it must satisfy and the policies that plugin mounts add.
use vstd::prelude::*;

use crate::path::{components_start_with, PathError, WorkspacePath};
use crate::rules::{
    check_mount, check_paths, first_path_error, holds_text, lemma_mount_accepted,
    lemma_mount_not_over_directory, lemma_no_path_error, lemma_same_views_same_error, mount_error,
    mount_target_path, mounts_parse, path_rule_error, PathRule,
};
use crate::server::policy::{Policy, PolicyPermissions};
use crate::setting_value::SettingValue;
use crate::settings::{
    check_serve_settings, free_of_glob_chars, is_valid_plugin_name, lemma_accepted_serve_settings,
    lemma_checks_in_plain_terms, name_well_formed, path_comps, plugin_name_ok, prefix_path,
    prefix_well_formed, spec_check_serve, spec_prefix_path, spec_reserved_paths, uses_reserved,
    ConfigError, ServeSettings, ServeSettingsOverride,
};
use crate::text::{clone_strings, entry_keys, keys_ordered, same_text};

verus! {

/// Paths hidden from listings and refused on direct access.
#[derive(Debug)]
pub struct IgnoreConfig {
    pub paths: Vec<WorkspacePath>,
}

/// One `[[plugin]]` entry.
#[derive(Debug)]
pub struct PluginConfig {
    pub name: String,
    pub runner: String,
    pub command: Vec<String>,
    pub allow: Vec<String>,
    pub mount: Option<String>,
    /// Plugin-specific settings, in key order.
    pub extra: Vec<(String, SettingValue)>,
}

impl PluginConfig {
    /// Well-formed: each setting name once, in ascending character order,
    /// as the settings table holds them.
    pub open spec fn wf(&self) -> bool {
        keys_ordered(entry_keys(self.extra@))
    }
}

/// The whole repository configuration.
#[derive(Debug)]
pub struct RepositoryConfig {
    pub name: String,
    pub serve: ServeSettings,
    pub policy: Vec<Policy>,
    pub ignore: IgnoreConfig,
    pub plugin: Vec<PluginConfig>,
}

/// The paths of the policy rules.
pub open spec fn policy_paths(ps: Seq<Policy>) -> Seq<WorkspacePath> {
    ps.map_values(|p: Policy| p.path)
}

/// The mounts of the plugins.
pub open spec fn plugin_mounts(ps: Seq<PluginConfig>) -> Seq<Option<String>> {
    ps.map_values(|p: PluginConfig| p.mount)
}

/// The error raised by plugin `i`, if any.
pub open spec fn plugin_error(
    plugins: Seq<PluginConfig>,
    i: int,
    target_is_dir: bool,
    reserved: Seq<Seq<Seq<char>>>,
) -> Option<ConfigError> {
    let p = plugins[i];
    if !plugin_name_ok(p.name@) {
        Some(ConfigError::InvalidPluginName(p.name))
    } else if p.runner@ != "command"@ && p.runner@ != "default"@ {
        Some(ConfigError::UnsupportedRunner(p.runner))
    } else if p.runner@ == "command"@ && p.command@.len() == 0 {
        Some(ConfigError::EmptyCommand)
    } else if p.runner@ == "default"@ && p.command@.len() > 0 {
        Some(ConfigError::DefaultWithCommand(p.name))
    } else {
        mount_error(plugin_mounts(plugins), i, target_is_dir, reserved)
    }
}

/// The first error among the plugins from index `i` on.
pub open spec fn first_plugin_error(
    plugins: Seq<PluginConfig>,
    dirs: Seq<bool>,
    reserved: Seq<Seq<Seq<char>>>,
    i: int,
) -> Option<ConfigError>
    decreases plugins.len() - i,
{
    if i < 0 || i >= plugins.len() {
        None
    } else {
        match plugin_error(plugins, i, dirs[i], reserved) {
            Some(e) => Some(e),
            None => first_plugin_error(plugins, dirs, reserved, i + 1),
        }
    }
}

/// The outcome of validating `c`, where `dirs[i]` tells whether plugin
/// `i`'s mount target is an existing directory of the repository.
pub open spec fn spec_validate(c: RepositoryConfig, dirs: Seq<bool>) -> Result<(), ConfigError> {
    if c.name@.len() == 0 {
        Err(ConfigError::NameEmpty)
    } else {
        match spec_check_serve(c.serve) {
            Err(e) => Err(e),
            Ok(reserved) => match first_path_error(PathRule::Policy, policy_paths(c.policy@), reserved, 0) {
                Some(e) => Err(e),
                None => match first_path_error(PathRule::Ignore, c.ignore.paths@, reserved, 0) {
                    Some(e) => Err(e),
                    None => match first_plugin_error(c.plugin@, dirs, reserved, 0) {
                        Some(e) => Err(e),
                        None => Ok(()),
                    },
                },
            },
        }
    }
}

/// No plugin from `i` on raises an error when none is the first.
pub proof fn lemma_no_plugin_error(
    plugins: Seq<PluginConfig>,
    dirs: Seq<bool>,
    reserved: Seq<Seq<Seq<char>>>,
    i: int,
)
    requires
        0 <= i,
        first_plugin_error(plugins, dirs, reserved, i) is None,
    ensures
        forall|k: int| i <= k < plugins.len() ==> plugin_error(plugins, k, dirs[k], reserved) is None,
    decreases plugins.len() - i,
{
    if i < plugins.len() {
        lemma_no_plugin_error(plugins, dirs, reserved, i + 1);
    }
}

/// A name, three well-formed, pairwise different URL prefixes, and policy rules
/// that use no glob syntax and stay out of `.repo/` and out of the paths
/// the prefixes reserve.
pub open spec fn serve_and_policies_sound(c: RepositoryConfig) -> bool {
    &&& c.name@.len() > 0
    &&& prefix_well_formed(c.serve.plugin_url_prefix@)
    &&& prefix_well_formed(c.serve.policy_url_prefix@)
    &&& prefix_well_formed(c.serve.info_url_prefix@)
    &&& c.serve.plugin_url_prefix@ != c.serve.policy_url_prefix@
    &&& c.serve.plugin_url_prefix@ != c.serve.info_url_prefix@
    &&& c.serve.policy_url_prefix@ != c.serve.info_url_prefix@
    &&& spec_reserved_paths(c.serve) matches Ok(reserved) && forall|k: int|
        0 <= k < c.policy@.len() ==> free_of_glob_chars((#[trigger] c.policy@[k]).path.text())
            && !(c.policy@[k].path.comps().len() > 0 && c.policy@[k].path.comps()[0] == seq![
            '.',
            'r',
            'e',
            'p',
            'o',
        ]) && forall|r: int|
            0 <= r < reserved.len() ==> !components_start_with(
                c.policy@[k].path.comps(),
                #[trigger] reserved[r],
            )
}

/// A configuration that passes validation has three well-formed, pairwise
/// different URL prefixes, and policy rules that use no glob syntax and
/// stay out of `.repo/` and out of the paths the prefixes reserve.
pub proof fn lemma_validated_serve_and_policies(c: RepositoryConfig, dirs: Seq<bool>)
    requires
        spec_validate(c, dirs) is Ok,
    ensures
        serve_and_policies_sound(c),
{
    lemma_accepted_serve_settings(c.serve);
    lemma_checks_in_plain_terms(c.serve.plugin_url_prefix@);
    lemma_checks_in_plain_terms(c.serve.policy_url_prefix@);
    lemma_checks_in_plain_terms(c.serve.info_url_prefix@);
    let reserved = spec_check_serve(c.serve)->Ok_0;
    lemma_no_path_error(PathRule::Policy, policy_paths(c.policy@), reserved, 0);
    assert forall|k: int| 0 <= k < c.policy@.len() implies free_of_glob_chars(
        (#[trigger] c.policy@[k]).path.text(),
    ) && !(c.policy@[k].path.comps().len() > 0 && c.policy@[k].path.comps()[0] == seq![
        '.',
        'r',
        'e',
        'p',
        'o',
    ]) && forall|r: int|
        0 <= r < reserved.len() ==> !components_start_with(
            c.policy@[k].path.comps(),
            #[trigger] reserved[r],
        ) by {
        assert(policy_paths(c.policy@)[k] == c.policy@[k].path);
        assert(path_rule_error(PathRule::Policy, policy_paths(c.policy@)[k], reserved) is None);
        lemma_checks_in_plain_terms(c.policy@[k].path.text());
        assert forall|r: int| 0 <= r < reserved.len() implies !components_start_with(
            c.policy@[k].path.comps(),
            #[trigger] reserved[r],
        ) by {
            if components_start_with(c.policy@[k].path.comps(), reserved[r]) {
                assert(uses_reserved(c.policy@[k].path.comps(), reserved));
            }
        }
    }
}

/// Every plugin has a valid name, runs a non-empty command or is a
/// default plugin without one, and has a mount, if any, that starts and
/// ends with `/` and that no other plugin shares.
pub open spec fn plugins_sound(c: RepositoryConfig) -> bool {
    forall|i: int|
        0 <= i < c.plugin@.len() ==> {
            let p = #[trigger] c.plugin@[i];
            &&& name_well_formed(p.name@)
            &&& (p.runner@ == "command"@ && p.command@.len() > 0) || (p.runner@ == "default"@
                && p.command@.len() == 0)
            &&& p.mount matches Some(m) ==> m@.len() > 0 && m@[0] == '/' && m@[m@.len() - 1] == '/'
                && forall|j: int|
                0 <= j < c.plugin@.len() && j != i ==> (#[trigger] c.plugin@[j].mount matches Some(
                    n,
                ) ==> n@ != m@)
        }
}

/// A configuration that passes validation ignores no path that is the
/// root, uses glob syntax, lies inside `.repo/` or lies under a reserved
/// URL prefix.
pub proof fn lemma_validated_ignore_paths(c: RepositoryConfig, dirs: Seq<bool>)
    requires
        spec_validate(c, dirs) is Ok,
    ensures
        spec_reserved_paths(c.serve) matches Ok(reserved) && forall|k: int|
            0 <= k < c.ignore.paths@.len() ==> {
                let q = #[trigger] c.ignore.paths@[k];
                &&& q.comps().len() > 0
                &&& free_of_glob_chars(q.text())
                &&& q.comps()[0] != seq!['.', 'r', 'e', 'p', 'o']
                &&& forall|r: int|
                    0 <= r < reserved.len() ==> !components_start_with(q.comps(), #[trigger] reserved[r])
            },
{
    lemma_accepted_serve_settings(c.serve);
    let reserved = spec_check_serve(c.serve)->Ok_0;
    lemma_no_path_error(PathRule::Ignore, c.ignore.paths@, reserved, 0);
    assert forall|k: int| 0 <= k < c.ignore.paths@.len() implies {
        let q = #[trigger] c.ignore.paths@[k];
        &&& q.comps().len() > 0
        &&& free_of_glob_chars(q.text())
        &&& q.comps()[0] != seq!['.', 'r', 'e', 'p', 'o']
        &&& forall|r: int|
            0 <= r < reserved.len() ==> !components_start_with(q.comps(), #[trigger] reserved[r])
    } by {
        let q = c.ignore.paths@[k];
        assert(path_rule_error(PathRule::Ignore, q, reserved) is None);
        lemma_checks_in_plain_terms(q.text());
        assert forall|r: int| 0 <= r < reserved.len() implies !components_start_with(
            q.comps(),
            #[trigger] reserved[r],
        ) by {
            if components_start_with(q.comps(), reserved[r]) {
                assert(uses_reserved(q.comps(), reserved));
            }
        }
    }
}

/// In a configuration that passes validation every plugin has a valid
/// name, runs a non-empty command or is a default plugin without one, and
/// has a mount, if any, that starts and ends with `/` and that no other
/// plugin shares.
pub proof fn lemma_validated_plugins(c: RepositoryConfig, dirs: Seq<bool>)
    requires
        spec_validate(c, dirs) is Ok,
    ensures
        plugins_sound(c),
{
    let reserved = spec_check_serve(c.serve)->Ok_0;
    lemma_no_plugin_error(c.plugin@, dirs, reserved, 0);
    assert forall|i: int| 0 <= i < c.plugin@.len() implies {
        let p = #[trigger] c.plugin@[i];
        &&& name_well_formed(p.name@)
        &&& (p.runner@ == "command"@ && p.command@.len() > 0) || (p.runner@ == "default"@
            && p.command@.len() == 0)
        &&& p.mount matches Some(m) ==> m@.len() > 0 && m@[0] == '/' && m@[m@.len() - 1] == '/'
            && forall|j: int|
            0 <= j < c.plugin@.len() && j != i ==> (#[trigger] c.plugin@[j].mount matches Some(n)
                ==> n@ != m@)
    } by {
        assert(plugin_error(c.plugin@, i, dirs[i], reserved) is None);
        lemma_checks_in_plain_terms(c.plugin@[i].name@);
        let mounts = plugin_mounts(c.plugin@);
        lemma_mount_accepted(mounts, i, dirs[i], reserved);
        assert forall|j: int| 0 <= j < c.plugin@.len() implies mounts[j] == (
            #[trigger] c.plugin@[j]).mount by {}
        if let Some(m) = c.plugin@[i].mount {
            assert(m@.subrange(0, 1)[0] == m@[0]);
            assert(m@.subrange(m@.len() - 1, m@.len() as int)[0] == m@[m@.len() - 1]);
            assert forall|j: int| 0 <= j < c.plugin@.len() && j != i implies (
            #[trigger] c.plugin@[j].mount matches Some(n) ==> n@ != m@) by {
                assert(!holds_text(mounts[j], m@));
            }
        }
    }
}

/// A configuration that passes validation mounts no plugin over an
/// existing directory: a mount that denotes a repository path other than
/// the root has a target that is no directory.
pub proof fn lemma_validated_mounts_clear(c: RepositoryConfig, dirs: Seq<bool>)
    requires
        spec_validate(c, dirs) is Ok,
    ensures
        forall|i: int|
            0 <= i < c.plugin@.len() && (#[trigger] c.plugin@[i]).mount is Some && mount_target_path(
                c.plugin@[i].mount->Some_0@,
            ) is Some ==> !dirs[i],
{
    let reserved = spec_check_serve(c.serve)->Ok_0;
    lemma_no_plugin_error(c.plugin@, dirs, reserved, 0);
    assert forall|i: int|
        0 <= i < c.plugin@.len() && (#[trigger] c.plugin@[i]).mount is Some && mount_target_path(
            c.plugin@[i].mount->Some_0@,
        ) is Some implies !dirs[i] by {
        assert(plugin_error(c.plugin@, i, dirs[i], reserved) is None);
        assert(plugin_mounts(c.plugin@)[i] == c.plugin@[i].mount);
        lemma_mount_not_over_directory(plugin_mounts(c.plugin@), i, dirs[i], reserved);
    }
}

/// One implicit rule per mounted plugin, in plugin order: the mount path
/// readable by the plugin's `allow` list; or the first mount that is no
/// repository path.
pub open spec fn mount_policies(plugins: Seq<PluginConfig>) -> Result<Seq<((Seq<Seq<char>>, bool), Seq<String>)>, PathError>
    decreases plugins.len(),
{
    if plugins.len() == 0 {
        Ok(Seq::empty())
    } else {
        let rest = mount_policies(plugins.drop_first());
        match plugins[0].mount {
            None => rest,
            Some(m) => match spec_prefix_path(m@) {
                Err(e) => Err(e),
                Ok(p) => match rest {
                    Err(e) => Err(e),
                    Ok(r) => Ok(seq![(p, plugins[0].allow@)] + r),
                },
            },
        }
    }
}

/// The plugins that have a mount, in plugin order.
pub open spec fn mounted_plugins(plugins: Seq<PluginConfig>) -> Seq<PluginConfig>
    decreases plugins.len(),
{
    if plugins.len() == 0 {
        Seq::empty()
    } else if plugins[0].mount is Some {
        seq![plugins[0]] + mounted_plugins(plugins.drop_first())
    } else {
        mounted_plugins(plugins.drop_first())
    }
}

/// The implicit rules are those of the mounted plugins, one each and in
/// order: the path the mount denotes, readable by the plugin's `allow`
/// list.
pub proof fn lemma_mount_policies_of_mounted(plugins: Seq<PluginConfig>)
    requires
        mount_policies(plugins) is Ok,
    ensures
        ({
            let entries = mount_policies(plugins)->Ok_0;
            let ms = mounted_plugins(plugins);
            &&& entries.len() == ms.len()
            &&& forall|q: int|
                0 <= q < ms.len() ==> spec_prefix_path((#[trigger] ms[q]).mount->Some_0@) is Ok
                    && entries[q] == (spec_prefix_path(ms[q].mount->Some_0@)->Ok_0, ms[q].allow@)
        }),
    decreases plugins.len(),
{
    if plugins.len() > 0 {
        let rest = plugins.drop_first();
        lemma_mount_policies_of_mounted(rest);
        let entries = mount_policies(plugins)->Ok_0;
        let ms = mounted_plugins(plugins);
        let re = mount_policies(rest)->Ok_0;
        let rm = mounted_plugins(rest);
        if plugins[0].mount is Some {
            assert forall|q: int| 0 <= q < ms.len() implies spec_prefix_path(
                (#[trigger] ms[q]).mount->Some_0@,
            ) is Ok && entries[q] == (spec_prefix_path(ms[q].mount->Some_0@)->Ok_0, ms[q].allow@) by {
                if q > 0 {
                    assert(ms[q] == rm[q - 1]);
                    assert(entries[q] == re[q - 1]);
                }
            }
        }
    }
}

/// Whether `p` is the implicit rule `entry`: read access for the listed
/// identities and nothing else.
pub open spec fn is_mount_policy(p: Policy, entry: ((Seq<Seq<char>>, bool), Seq<String>)) -> bool {
    &&& p.path@ == entry.0
    &&& p.permissions.get@ == entry.1
    &&& p.permissions.post@.len() == 0
    &&& p.permissions.put@.len() == 0
    &&& p.permissions.delete@.len() == 0
}

impl RepositoryConfig {
    /// Replaces the serving settings given on the command line.
    pub fn apply_serve_overrides(&mut self, overrides: &ServeSettingsOverride)
        ensures
            final(self).serve.port == (match overrides.port {
                Some(p) => p,
                None => old(self).serve.port,
            }),
            final(self).serve.plugin_url_prefix@ == (match overrides.plugin_url_prefix {
                Some(p) => p@,
                None => old(self).serve.plugin_url_prefix@,
            }),
            final(self).serve.policy_url_prefix@ == (match overrides.policy_url_prefix {
                Some(p) => p@,
                None => old(self).serve.policy_url_prefix@,
            }),
            final(self).serve.info_url_prefix@ == (match overrides.info_url_prefix {
                Some(p) => p@,
                None => old(self).serve.info_url_prefix@,
            }),
            final(self).name == old(self).name,
            final(self).policy == old(self).policy,
            final(self).ignore == old(self).ignore,
            final(self).plugin == old(self).plugin,
    {
        self.serve.apply_overrides(overrides);
    }

    /// Puts, before the configured rules, one rule per mounted plugin that
    /// lets the plugin's `allow` list read the mount path.
    pub fn insert_implicit_mount_policies(&mut self) -> (r: Result<(), PathError>)
        ensures
            final(self).name == old(self).name,
            final(self).serve == old(self).serve,
            final(self).ignore == old(self).ignore,
            final(self).plugin == old(self).plugin,
            match r {
                Err(e) => mount_policies(old(self).plugin@) == Err::<
                    Seq<((Seq<Seq<char>>, bool), Seq<String>)>,
                    PathError,
                >(e) && final(self).policy == old(self).policy,
                Ok(()) => mount_policies(old(self).plugin@) matches Ok(entries) && final(self).policy@.len()
                    == entries.len() + old(self).policy@.len() && (forall|q: int|
                    0 <= q < entries.len() ==> is_mount_policy(
                        #[trigger] final(self).policy@[q],
                        entries[q],
                    )) && (forall|q: int|
                    0 <= q < old(self).policy@.len() ==> #[trigger] final(self).policy@[entries.len()
                        + q] == old(self).policy@[q]),
            },
            r is Ok ==> ({
                let ms = mounted_plugins(old(self).plugin@);
                &&& final(self).policy@.len() == ms.len() + old(self).policy@.len()
                &&& forall|q: int|
                    0 <= q < ms.len() ==> (spec_prefix_path((#[trigger] ms[q]).mount->Some_0@) matches Ok(
                        path,
                    ) && is_mount_policy(final(self).policy@[q], (path, ms[q].allow@)))
            }),
    {
        let mut implicit: Vec<Policy> = Vec::new();
        let mut i: usize = 0;
        proof {
            assert(self.plugin@.skip(0) =~= self.plugin@);
            match mount_policies(self.plugin@) {
                Ok(r) => {
                    assert(implicit@.map_values(|p: Policy| (p.path@, p.permissions.get@)) + r =~= r);
                },
                Err(_) => {},
            }
        }
        while i < self.plugin.len()
            invariant
                i <= self.plugin@.len(),
                mount_policies(self.plugin@) == prepend_entries(
                    implicit@,
                    mount_policies(self.plugin@.skip(i as int)),
                ),
                forall|q: int| 0 <= q < implicit@.len() ==> policy_is_plain(#[trigger] implicit@[q]),
            decreases self.plugin@.len() - i,
        {
            let ghost rest = self.plugin@.skip(i as int);
            assert(rest.drop_first() =~= self.plugin@.skip(i + 1));
            let plugin = &self.plugin[i];
            match &plugin.mount {
                None => {},
                Some(mount) => {
                    match prefix_path(mount.as_str()) {
                        Err(e) => {
                            proof {
                                lemma_prepend_err(implicit@, e);
                            }
                            return Err(e);
                        },
                        Ok(path) => {
                            let ghost before = implicit@;
                            implicit.push(
                                Policy {
                                    path,
                                    permissions: PolicyPermissions {
                                        get: clone_strings(&plugin.allow),
                                        post: Vec::new(),
                                        put: Vec::new(),
                                        delete: Vec::new(),
                                    },
                                },
                            );
                            proof {
                                lemma_prepend_push(before, implicit@.last(), mount_policies(rest.drop_first()));
                            }
                        },
                    }
                },
            }
            i = i + 1;
        }
        assert(self.plugin@.skip(self.plugin@.len() as int) =~= Seq::<PluginConfig>::empty());
        let ghost entries = mount_policies(self.plugin@)->Ok_0;
        let mut combined = implicit;
        combined.append(&mut self.policy);
        self.policy = combined;
        proof {
            assert forall|q: int| 0 <= q < entries.len() implies is_mount_policy(
                #[trigger] self.policy@[q],
                entries[q],
            ) by {
                assert(policy_is_plain(self.policy@[q]));
            }
            lemma_mount_policies_of_mounted(old(self).plugin@);
        }
        Ok(())
    }

    /// The mounts of the plugins, in plugin order.
    pub fn mounts(&self) -> (r: Vec<Option<String>>)
        ensures
            r@ == plugin_mounts(self.plugin@),
    {
        let mut out: Vec<Option<String>> = Vec::new();
        let mut i: usize = 0;
        while i < self.plugin.len()
            invariant
                i <= self.plugin@.len(),
                out@ == plugin_mounts(self.plugin@).subrange(0, i as int),
            decreases self.plugin@.len() - i,
        {
            let m = match &self.plugin[i].mount {
                Some(m) => Some(m.clone()),
                None => None,
            };
            out.push(m);
            assert(out@ =~= plugin_mounts(self.plugin@).subrange(0, i + 1));
            i = i + 1;
        }
        assert(plugin_mounts(self.plugin@).subrange(0, self.plugin@.len() as int) =~= plugin_mounts(
            self.plugin@,
        ));
        out
    }

    /// The policy paths, in rule order.
    fn policy_path_list(&self) -> (r: Vec<WorkspacePath>)
        ensures
            r@.len() == self.policy@.len(),
            forall|k: int| 0 <= k < r@.len() ==> (#[trigger] r@[k])@ == self.policy@[k].path@,
    {
        let mut out: Vec<WorkspacePath> = Vec::new();
        let mut i: usize = 0;
        while i < self.policy.len()
            invariant
                i <= self.policy@.len(),
                out@.len() == i,
                forall|k: int| 0 <= k < i ==> (#[trigger] out@[k])@ == self.policy@[k].path@,
            decreases self.policy@.len() - i,
        {
            out.push(self.policy[i].path.clone());
            i = i + 1;
        }
        out
    }

    /// Checks the configuration rules. `mount_target_is_dir[i]` tells
    /// whether plugin `i`'s mount target already exists as a directory of
    /// the repository (see [`crate::rules::mount_targets`]).
    pub fn validate(&self, mount_target_is_dir: &Vec<bool>) -> (r: Result<(), ConfigError>)
        requires
            mount_target_is_dir@.len() == self.plugin@.len(),
            mounts_parse(plugin_mounts(self.plugin@)),
        ensures
            r == spec_validate(*self, mount_target_is_dir@),
            r is Ok ==> serve_and_policies_sound(*self) && plugins_sound(*self),
    {
        if self.name.as_str().unicode_len() == 0 {
            return Err(ConfigError::NameEmpty);
        }
        let reserved = check_serve_settings(&self.serve)?;
        let ghost rs = path_comps(reserved@);
        let paths = self.policy_path_list();
        proof {
            assert forall|k: int| 0 <= k < paths@.len() implies (#[trigger] paths@[k])@ == policy_paths(
                self.policy@,
            )[k]@ by {
                assert(policy_paths(self.policy@)[k] == self.policy@[k].path);
            }
            lemma_same_views_same_error(PathRule::Policy, paths@, policy_paths(self.policy@), rs, 0);
        }
        match check_paths(PathRule::Policy, &paths, &reserved) {
            Some(e) => {
                return Err(e);
            },
            None => {},
        }
        match check_paths(PathRule::Ignore, &self.ignore.paths, &reserved) {
            Some(e) => {
                return Err(e);
            },
            None => {},
        }
        let mounts = self.mounts();
        let mut i: usize = 0;
        while i < self.plugin.len()
            invariant
                i <= self.plugin@.len(),
                mount_target_is_dir@.len() == self.plugin@.len(),
                mounts@ == plugin_mounts(self.plugin@),
                mounts_parse(mounts@),
                rs == path_comps(reserved@),
                self.name@.len() > 0,
                spec_check_serve(self.serve) == Ok::<Seq<Seq<Seq<char>>>, ConfigError>(rs),
                first_path_error(PathRule::Policy, policy_paths(self.policy@), rs, 0) is None,
                first_path_error(PathRule::Ignore, self.ignore.paths@, rs, 0) is None,
                first_plugin_error(self.plugin@, mount_target_is_dir@, rs, 0) == first_plugin_error(
                    self.plugin@,
                    mount_target_is_dir@,
                    rs,
                    i as int,
                ),
            decreases self.plugin@.len() - i,
        {
            match self.check_plugin(i, &mounts, mount_target_is_dir[i], &reserved) {
                Some(e) => {
                    return Err(e);
                },
                None => {},
            }
            i = i + 1;
        }
        proof {
            assert(spec_validate(*self, mount_target_is_dir@) is Ok);
            lemma_validated_serve_and_policies(*self, mount_target_is_dir@);
            lemma_validated_plugins(*self, mount_target_is_dir@);
        }
        Ok(())
    }

    /// The error plugin `i` raises, if any.
    fn check_plugin(
        &self,
        i: usize,
        mounts: &Vec<Option<String>>,
        target_is_dir: bool,
        reserved: &Vec<WorkspacePath>,
    ) -> (r: Option<ConfigError>)
        requires
            i < self.plugin@.len(),
            mounts@ == plugin_mounts(self.plugin@),
            mounts_parse(mounts@),
        ensures
            r == plugin_error(self.plugin@, i as int, target_is_dir, path_comps(reserved@)),
    {
        let p = &self.plugin[i];
        if !is_valid_plugin_name(p.name.as_str()) {
            return Some(ConfigError::InvalidPluginName(p.name.clone()));
        }
        let is_command = same_text(p.runner.as_str(), "command");
        let is_default = same_text(p.runner.as_str(), "default");
        if !is_command && !is_default {
            return Some(ConfigError::UnsupportedRunner(p.runner.clone()));
        }
        if is_command && p.command.len() == 0 {
            return Some(ConfigError::EmptyCommand);
        }
        if is_default && p.command.len() > 0 {
            return Some(ConfigError::DefaultWithCommand(p.name.clone()));
        }
        check_mount(mounts, i, target_is_dir, reserved)
    }

    /// The index of the first plugin called `name`.
    pub fn find_plugin_index(&self, name: &str) -> (r: Option<usize>)
        ensures
            match r {
                Some(k) => k < self.plugin@.len() && self.plugin@[k as int].name@ == name@ && forall|
                    j: int,
                | 0 <= j < k ==> self.plugin@[j].name@ != name@,
                None => forall|j: int| 0 <= j < self.plugin@.len() ==> self.plugin@[j].name@ != name@,
            },
    {
        let mut i: usize = 0;
        while i < self.plugin.len()
            invariant
                i <= self.plugin@.len(),
                forall|k: int| 0 <= k < i ==> self.plugin@[k].name@ != name@,
            decreases self.plugin@.len() - i,
        {
            if same_text(self.plugin[i].name.as_str(), name) {
                return Some(i);
            }
            i = i + 1;
        }
        None
    }

    /// The first plugin called `name`.
    pub fn find_plugin(&self, name: &str) -> (r: Option<&PluginConfig>)
        ensures
            match r {
                Some(p) => exists|i: int|
                    0 <= i < self.plugin@.len() && self.plugin@[i] == *p && p.name@ == name@
                        && forall|k: int| 0 <= k < i ==> self.plugin@[k].name@ != name@,
                None => forall|k: int| 0 <= k < self.plugin@.len() ==> self.plugin@[k].name@ != name@,
            },
    {
        match self.find_plugin_index(name) {
            Some(k) => Some(&self.plugin[k]),
            None => None,
        }
    }
}

/// A rule whose non-read lists are empty.
pub open spec fn policy_is_plain(p: Policy) -> bool {
    p.permissions.post@.len() == 0 && p.permissions.put@.len() == 0 && p.permissions.delete@.len() == 0
}

/// The rules built so far followed by what the remaining plugins yield.
pub open spec fn prepend_entries(
    done: Seq<Policy>,
    rest: Result<Seq<((Seq<Seq<char>>, bool), Seq<String>)>, PathError>,
) -> Result<Seq<((Seq<Seq<char>>, bool), Seq<String>)>, PathError> {
    match rest {
        Err(e) => Err(e),
        Ok(r) => Ok(done.map_values(|p: Policy| (p.path@, p.permissions.get@)) + r),
    }
}

proof fn lemma_prepend_err(done: Seq<Policy>, e: PathError)
    ensures
        prepend_entries(done, Err(e)) == Err::<
            Seq<((Seq<Seq<char>>, bool), Seq<String>)>,
            PathError,
        >(e),
{
}

proof fn lemma_prepend_push(
    done: Seq<Policy>,
    p: Policy,
    rest: Result<Seq<((Seq<Seq<char>>, bool), Seq<String>)>, PathError>,
)
    ensures
        prepend_entries(done.push(p), rest) == prepend_entries(
            done,
            match rest {
                Err(e) => Err(e),
                Ok(r) => Ok(seq![(p.path@, p.permissions.get@)] + r),
            },
        ),
{
    match rest {
        Err(e) => {},
        Ok(r) => {
            assert(done.push(p).map_values(|p: Policy| (p.path@, p.permissions.get@)) + r
                =~= done.map_values(|p: Policy| (p.path@, p.permissions.get@)) + (seq![
                (p.path@, p.permissions.get@),
            ] + r));
        },
    }
}

} // verus!
