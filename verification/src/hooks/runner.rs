//! Running the plugins of one repository: the context and process of a
//! single run. The order of runs is planned in [`crate::hooks::plan`].
use vstd::prelude::*;

use crate::hooks::config::{PluginConfig, RepositoryConfig};
use crate::hooks::plugin::{
    dependency_mounts, hook_env, lemma_dependency_mounts_ordered, lemma_mounts_keys_ordered,
    plugin_dir, spec_dependency_mounts, PluginContext, PluginTrigger, TriggeredContext,
};
use crate::path::{join_text, WorkspacePath};
use crate::plugins::{
    expand_all, expand_items, pair_views, resolve_plugin_command, spec_plugin_command,
    DefaultPluginDefinition, PluginError, PluginErrorView, PluginInvocation,
};
use crate::server::identity::UserIdentity;
use crate::setting_value::{
    entries_resolve, first_error_entries, lemma_entries_resolve_ordered, resolve_entries,
};
use crate::text::{entry_keys, keys_ordered};

verus! {

/// A runner for the plugins of one repository.
pub struct PluginRunner<'a> {
    pub repository_root: &'a str,
    pub repository_name: &'a str,
    pub config: &'a RepositoryConfig,
    pub workspace_fs_root: &'a str,
    pub default_plugins: &'a Vec<DefaultPluginDefinition>,
}

/// What running a plugin with the command line `command` in `context`
/// for `trigger` starts, given the expanded command line `expanded`.
pub open spec fn hook_invocation_matches(
    inv: PluginInvocation,
    plugin: PluginConfig,
    context: PluginContext,
    trigger: PluginTrigger,
    expanded: Seq<Seq<char>>,
) -> bool {
    &&& expanded.len() > 0
    &&& inv.program@ == expanded[0]
    &&& inv.args@.map_values(|s: String| s@) == expanded.drop_first()
    &&& inv.current_dir@ == context.repository_root@
    &&& pair_views(inv.env@) == hook_env(context, trigger)
    &&& entries_resolve(
        TriggeredContext { context: &context, trigger },
        plugin.extra@,
        inv.settings@,
        0,
    )
}

impl<'a> PluginRunner<'a> {
    /// A runner for `config`, found at `repository_root`.
    pub fn new(
        repository_root: &'a str,
        repository_name: &'a str,
        config: &'a RepositoryConfig,
        workspace_fs_root: &'a str,
        default_plugins: &'a Vec<DefaultPluginDefinition>,
    ) -> (r: PluginRunner<'a>)
        ensures
            r.repository_root == repository_root,
            r.repository_name == repository_name,
            r.config == config,
            r.workspace_fs_root == workspace_fs_root,
            r.default_plugins == default_plugins,
    {
        PluginRunner { repository_root, repository_name, config, workspace_fs_root, default_plugins }
    }

    /// The context for running plugin `k` on `path` for `user_identity`,
    /// or the first dependency of the plugin that is not found.
    pub fn plugin_context(&self, k: usize, path: Option<&WorkspacePath>, user_identity: &UserIdentity) -> (r:
        Result<PluginContext, PluginError>)
        requires
            k < self.config.plugin@.len(),
        ensures
            match r {
                Ok(c) => {
                    let p = self.config.plugin@[k as int];
                    &&& spec_dependency_mounts(self.config.plugin@, p.deps@, p.deps@.len() as int)
                        == Ok::<Seq<(Seq<char>, Seq<char>)>, PluginErrorView>(
                        pair_views(c.dependency_mounts@),
                    )
                    &&& c.repository_root@ == self.repository_root@
                    &&& c.repository_name@ == self.repository_name@
                    &&& c.plugin_name@ == p.name@
                    &&& c.output_directory@ == plugin_dir(self.repository_root@, p.name@, "generated"@)
                    &&& c.cache_directory@ == plugin_dir(self.repository_root@, p.name@, "cache"@)
                    &&& c.mount_url == p.mount
                    &&& (match path {
                        Some(w) => c.path matches Some(cw) && cw@ == w@,
                        None => c.path is None,
                    })
                    &&& c.user_identity@ == user_identity@
                    &&& c.workspace_fs_root@ == self.workspace_fs_root@
                    &&& c.wf()
                },
                Err(e) => {
                    let p = self.config.plugin@[k as int];
                    spec_dependency_mounts(self.config.plugin@, p.deps@, p.deps@.len() as int)
                        == Err::<Seq<(Seq<char>, Seq<char>)>, PluginErrorView>(e@)
                },
            },
    {
        let plugin = &self.config.plugin[k];
        let mounts = match dependency_mounts(self.config, plugin) {
            Ok(m) => m,
            Err(e) => {
                return Err(e);
            },
        };
        proof {
            let p = self.config.plugin@[k as int];
            lemma_dependency_mounts_ordered(self.config.plugin@, p.deps@, p.deps@.len() as int);
            lemma_mounts_keys_ordered(mounts@);
        }
        let repo = join_text(self.repository_root, ".repo");
        let base = join_text(repo.as_str(), plugin.name.as_str());
        Ok(
            PluginContext {
                repository_root: String::from_str(self.repository_root),
                repository_name: String::from_str(self.repository_name),
                plugin_name: plugin.name.clone(),
                output_directory: join_text(base.as_str(), "generated"),
                cache_directory: join_text(base.as_str(), "cache"),
                mount_url: match &plugin.mount {
                    Some(m) => Some(m.clone()),
                    None => None,
                },
                dependency_mounts: mounts,
                path: match path {
                    Some(w) => Some(w.clone()),
                    None => None,
                },
                user_identity: user_identity.clone(),
                workspace_fs_root: String::from_str(self.workspace_fs_root),
            },
        )
    }

    /// The process that runs plugin `k` in `context` for `trigger`: its
    /// command line with placeholders expanded, its environment and its
    /// resolved settings; or the first error met resolving the command
    /// line, expanding it, then resolving the settings.
    pub fn invocation(&self, k: usize, context: &PluginContext, trigger: PluginTrigger) -> (r: Result<
        PluginInvocation,
        PluginError,
    >)
        requires
            k < self.config.plugin@.len(),
            self.config.plugin@[k as int].runner@ == "command"@
                ==> self.config.plugin@[k as int].command@.len() > 0,
            self.config.plugin@[k as int].wf(),
            context.wf(),
        ensures
            ({
                let p = self.config.plugin@[k as int];
                let x = TriggeredContext { context, trigger };
                match r {
                    Ok(inv) => spec_plugin_command(
                        p.runner@,
                        p.name@,
                        p.command@,
                        self.default_plugins@,
                    ) matches Ok(command) && expand_all(x, command, 0) matches Ok(expanded)
                        && first_error_entries(x, p.extra@, 0) is None && hook_invocation_matches(
                        inv,
                        p,
                        *context,
                        trigger,
                        expanded,
                    ) && keys_ordered(entry_keys(inv.settings@)),
                    Err(e) => match spec_plugin_command(
                        p.runner@,
                        p.name@,
                        p.command@,
                        self.default_plugins@,
                    ) {
                        Err(ce) => e@ == ce,
                        Ok(command) => match expand_all(x, command, 0) {
                            Err(ee) => e@ == ee,
                            Ok(_) => first_error_entries(x, p.extra@, 0) == Some(e@),
                        },
                    },
                }
            }),
    {
        let plugin = &self.config.plugin[k];
        let command = match resolve_plugin_command(
            plugin.runner.as_str(),
            plugin.name.as_str(),
            &plugin.command,
            self.default_plugins,
        ) {
            Ok(c) => c,
            Err(e) => {
                return Err(e);
            },
        };
        let x = TriggeredContext { context, trigger };
        let expanded = match expand_items(&x, &command, 0) {
            Ok(v) => v,
            Err(e) => {
                return Err(e);
            },
        };
        let settings = match resolve_entries(&x, &plugin.extra) {
            Ok(v) => v,
            Err(e) => {
                return Err(e);
            },
        };
        proof {
            lemma_entries_resolve_ordered(x, plugin.extra@, settings@);
        }
        let ghost ev = expanded@.map_values(|s: String| s@);
        assert(ev.len() == command@.len());
        let program = expanded[0].clone();
        let mut args: Vec<String> = Vec::new();
        let mut i: usize = 1;
        while i < expanded.len()
            invariant
                1 <= i <= expanded@.len(),
                ev == expanded@.map_values(|s: String| s@),
                args@.map_values(|s: String| s@) == ev.subrange(1, i as int),
            decreases expanded@.len() - i,
        {
            let ghost before = args@;
            args.push(expanded[i].clone());
            assert(args@.map_values(|s: String| s@) =~= before.map_values(|s: String| s@).push(
                ev[i as int],
            ));
            assert(ev.subrange(1, i + 1) =~= ev.subrange(1, i as int).push(ev[i as int]));
            i = i + 1;
        }
        assert(ev.subrange(1, ev.len() as int) =~= ev.drop_first());
        Ok(
            PluginInvocation {
                program,
                args,
                current_dir: context.repository_root.clone(),
                env: context.env(trigger),
                settings,
            },
        )
    }
}

} // verus!
