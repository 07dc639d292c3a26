//! Preparing a plugin run on the server: the context it runs in, the
//! placeholders of its command line and settings, and the process it
//! becomes.
use vstd::prelude::*;

use crate::path::{join_path, join_text, lemma_join_path_keeps_out};
use crate::plugins::{
    apply_replacements, lemma_brace_pattern_absent, lemma_braced_holds_only_itself,
    lemma_default_root_pattern,
    lemma_replace_whole, lemma_replacements_absent, lemma_replacements_append, pair_views,
    patterns_nonempty, replace_each, resolve_plugin_command, spec_plugin_command,
    DefaultPluginDefinition, PluginError, PluginErrorView, PluginInvocation,
};
use crate::server::config::{PluginConfig, RepositoryConfig};
use crate::server::identity::UserIdentity;
use crate::setting_value::{
    entries_resolve, first_error_entries, lemma_entries_resolve_ordered, resolve_entries,
    SettingExpander, SettingValue,
};
use crate::text::{contains_seq, entry_keys, keys_ordered};

verus! {

/// Where a plugin runs and for whom.
#[derive(Debug)]
pub struct PluginContext {
    pub repository_root: String,
    pub repository_name: String,
    pub plugin_name: String,
    pub output_directory: String,
    pub cache_directory: String,
    pub mount_url: Option<String>,
    pub user_identity: UserIdentity,
    /// The installation directory that holds the bundled plugins.
    pub workspace_fs_root: String,
}

/// The directory `<root>/.repo/<plugin>/<leaf>`.
pub open spec fn plugin_dir(root: Seq<char>, plugin: Seq<char>, leaf: Seq<char>) -> Seq<char> {
    join_path(join_path(join_path(root, ".repo"@), plugin), leaf)
}

/// The placeholders of a command line and what replaces them, in the
/// order they are applied.
pub open spec fn server_pairs(c: PluginContext) -> Seq<(Seq<char>, Seq<char>)> {
    seq![
        ("{REPOSITORY_ROOT}"@, c.repository_root@),
        ("{REPOSITORY_NAME}"@, c.repository_name@),
        ("{PLUGIN_NAME}"@, c.plugin_name@),
        ("{OUTPOST_DIRECTORY}"@, c.output_directory@),
        ("{OUTPUT_DIRECTORY}"@, c.output_directory@),
        ("{WORKSPACE_FS_ROOT}"@, c.workspace_fs_root@),
        ("{DEFAULT_PLUGINS_ROOT}"@, join_path(c.workspace_fs_root@, "default_plugins"@)),
    ] + match c.mount_url {
        Some(m) => seq![("{MOUNT_URL}"@, m@)],
        None => Seq::empty(),
    }
}

/// `{DEFAULT_PLUGINS_ROOT}` expands to the `default_plugins` directory of
/// the installation root, whenever that root holds no `{`.
pub proof fn lemma_default_plugins_root_expands(c: PluginContext)
    requires
        !c.workspace_fs_root@.contains('{'),
    ensures
        apply_replacements("{DEFAULT_PLUGINS_ROOT}"@, server_pairs(c)) == join_path(
            c.workspace_fs_root@,
            "default_plugins"@,
        ),
{
    reveal_strlit("{REPOSITORY_ROOT}");
    reveal_strlit("{REPOSITORY_NAME}");
    reveal_strlit("{PLUGIN_NAME}");
    reveal_strlit("{OUTPOST_DIRECTORY}");
    reveal_strlit("{OUTPUT_DIRECTORY}");
    reveal_strlit("{WORKSPACE_FS_ROOT}");
    reveal_strlit("{MOUNT_URL}");
    lemma_default_root_pattern();
    let t = "{DEFAULT_PLUGINS_ROOT}"@;
    let v = join_path(c.workspace_fs_root@, "default_plugins"@);
    let pairs = server_pairs(c);
    let head = pairs.subrange(0, 6);
    let rest = pairs.subrange(6, pairs.len() as int);
    assert(pairs =~= head + rest);
    lemma_replacements_append(t, head, rest);
    assert forall|k: int| 0 <= k < head.len() implies !contains_seq(t, (#[trigger] head[k]).0) by {
        let q = head[k].0;
        assert(q.len() >= 2 && q[0] == '{' && q[q.len() - 1] == '}');
        assert(q.len() != t.len());
        if contains_seq(t, q) {
            lemma_braced_holds_only_itself(t, q);
        }
    }
    lemma_replacements_absent(t, head);
    assert(rest[0] == (t, v));
    lemma_replace_whole(t, v);
    let tail = rest.drop_first();
    reveal_strlit("default_plugins");
    assert("default_plugins"@ =~= seq![
        'd', 'e', 'f', 'a', 'u', 'l', 't', '_', 'p', 'l', 'u', 'g', 'i', 'n', 's',
    ]);
    lemma_join_path_keeps_out(c.workspace_fs_root@, "default_plugins"@, '{');
    assert forall|k: int| 0 <= k < tail.len() implies !contains_seq(v, (#[trigger] tail[k]).0) by {
        assert(tail[k].0 == "{MOUNT_URL}"@);
        lemma_brace_pattern_absent(v, tail[k].0);
    }
    lemma_replacements_absent(v, tail);
}

/// The environment a plugin process receives besides its settings.
pub open spec fn server_env(c: PluginContext) -> Seq<(Seq<char>, Seq<char>)> {
    seq![
        ("WORKSPACE_FS_REPOSITORY_ROOT"@, c.repository_root@),
        ("WORKSPACE_FS_REPOSITORY_NAME"@, c.repository_name@),
        ("WORKSPACE_FS_PLUGIN_NAME"@, c.plugin_name@),
        ("WORKSPACE_FS_OUTPUT_DIRECTORY"@, c.output_directory@),
        ("WORKSPACE_FS_CACHE_DIRECTORY"@, c.cache_directory@),
        ("WORKSPACE_FS_USER_IDENTITY"@, c.user_identity@),
    ] + match c.mount_url {
        Some(m) => seq![("MOUNT_URL"@, m@)],
        None => Seq::empty(),
    }
}

/// A pair of owned texts.
fn text_pair(a: &str, b: &str) -> (r: (String, String))
    ensures
        r.0@ == a@,
        r.1@ == b@,
{
    (String::from_str(a), String::from_str(b))
}

impl PluginContext {
    /// The context for running `plugin` in the repository at
    /// `repository_root` on behalf of `user_identity`.
    pub fn for_plugin(
        repository_root: &str,
        repository_name: &str,
        plugin: &PluginConfig,
        user_identity: &UserIdentity,
        workspace_fs_root: &str,
    ) -> (r: PluginContext)
        ensures
            r.repository_root@ == repository_root@,
            r.repository_name@ == repository_name@,
            r.plugin_name@ == plugin.name@,
            r.output_directory@ == plugin_dir(repository_root@, plugin.name@, "generated"@),
            r.cache_directory@ == plugin_dir(repository_root@, plugin.name@, "cache"@),
            r.mount_url == plugin.mount,
            r.user_identity@ == user_identity@,
            r.workspace_fs_root@ == workspace_fs_root@,
    {
        let repo = join_text(repository_root, ".repo");
        let base = join_text(repo.as_str(), plugin.name.as_str());
        PluginContext {
            repository_root: String::from_str(repository_root),
            repository_name: String::from_str(repository_name),
            plugin_name: plugin.name.clone(),
            output_directory: join_text(base.as_str(), "generated"),
            cache_directory: join_text(base.as_str(), "cache"),
            mount_url: match &plugin.mount {
                Some(m) => Some(m.clone()),
                None => None,
            },
            user_identity: user_identity.clone(),
            workspace_fs_root: String::from_str(workspace_fs_root),
        }
    }

    /// The replacement pairs of this context.
    fn pairs(&self) -> (r: Vec<(String, String)>)
        ensures
            pair_views(r@) == server_pairs(*self),
            patterns_nonempty(pair_views(r@)),
    {
        let mut v: Vec<(String, String)> = Vec::new();
        v.push(text_pair("{REPOSITORY_ROOT}", self.repository_root.as_str()));
        v.push(text_pair("{REPOSITORY_NAME}", self.repository_name.as_str()));
        v.push(text_pair("{PLUGIN_NAME}", self.plugin_name.as_str()));
        v.push(text_pair("{OUTPOST_DIRECTORY}", self.output_directory.as_str()));
        v.push(text_pair("{OUTPUT_DIRECTORY}", self.output_directory.as_str()));
        v.push(text_pair("{WORKSPACE_FS_ROOT}", self.workspace_fs_root.as_str()));
        let default_root = join_text(self.workspace_fs_root.as_str(), "default_plugins");
        v.push(text_pair("{DEFAULT_PLUGINS_ROOT}", default_root.as_str()));
        match &self.mount_url {
            Some(m) => {
                v.push(text_pair("{MOUNT_URL}", m.as_str()));
            },
            None => {},
        }
        proof {
            reveal_strlit("{REPOSITORY_ROOT}");
            reveal_strlit("{REPOSITORY_NAME}");
            reveal_strlit("{PLUGIN_NAME}");
            reveal_strlit("{OUTPOST_DIRECTORY}");
            reveal_strlit("{OUTPUT_DIRECTORY}");
            reveal_strlit("{WORKSPACE_FS_ROOT}");
            reveal_strlit("{DEFAULT_PLUGINS_ROOT}");
            reveal_strlit("{MOUNT_URL}");
            assert(pair_views(v@) =~= server_pairs(*self));
        }
        v
    }

    /// The environment of the plugin process, without its settings.
    pub fn env(&self) -> (r: Vec<(String, String)>)
        ensures
            pair_views(r@) == server_env(*self),
    {
        let mut v: Vec<(String, String)> = Vec::new();
        v.push(text_pair("WORKSPACE_FS_REPOSITORY_ROOT", self.repository_root.as_str()));
        v.push(text_pair("WORKSPACE_FS_REPOSITORY_NAME", self.repository_name.as_str()));
        v.push(text_pair("WORKSPACE_FS_PLUGIN_NAME", self.plugin_name.as_str()));
        v.push(text_pair("WORKSPACE_FS_OUTPUT_DIRECTORY", self.output_directory.as_str()));
        v.push(text_pair("WORKSPACE_FS_CACHE_DIRECTORY", self.cache_directory.as_str()));
        v.push(text_pair("WORKSPACE_FS_USER_IDENTITY", self.user_identity.as_str()));
        match &self.mount_url {
            Some(m) => {
                v.push(text_pair("MOUNT_URL", m.as_str()));
            },
            None => {},
        }
        assert(pair_views(v@) =~= server_env(*self));
        v
    }
}

impl SettingExpander for PluginContext {
    open spec fn spec_expand(&self, s: Seq<char>) -> Result<Seq<char>, PluginErrorView> {
        Ok(apply_replacements(s, server_pairs(*self)))
    }

    open spec fn spec_float_error(&self) -> PluginErrorView {
        PluginErrorView::FloatMustBeFinite
    }

    fn expand(&self, s: &str) -> (r: Result<String, PluginError>) {
        expand_placeholder(s, self)
    }

    fn float_error(&self) -> (e: PluginError) {
        PluginError::FloatMustBeFinite
    }
}

/// `input` with the context's placeholders replaced.
pub fn expand_placeholder(input: &str, context: &PluginContext) -> (r: Result<String, PluginError>)
    ensures
        r matches Ok(t) && t@ == apply_replacements(input@, server_pairs(*context)),
{
    let pairs = context.pairs();
    Ok(replace_each(input, &pairs))
}

/// The plugin's settings with their placeholders expanded, in key order.
pub fn resolved_plugin_settings(plugin: &PluginConfig, context: &PluginContext) -> (r: Result<
    Vec<(String, SettingValue)>,
    PluginError,
>)
    ensures
        match r {
            Ok(out) => first_error_entries(*context, plugin.extra@, 0) is None && entries_resolve(
                *context,
                plugin.extra@,
                out@,
                0,
            ),
            Err(e) => first_error_entries(*context, plugin.extra@, 0) == Some(e@),
        },
{
    resolve_entries(context, &plugin.extra)
}

/// The texts of a list of strings.
pub open spec fn string_views(v: Seq<String>) -> Seq<Seq<char>> {
    v.map_values(|s: String| s@)
}

/// What running `plugin` in `context` with the command line `command`
/// starts.
pub open spec fn invocation_matches(
    inv: PluginInvocation,
    plugin: PluginConfig,
    context: PluginContext,
    command: Seq<String>,
) -> bool {
    &&& inv.program@ == apply_replacements(command[0]@, server_pairs(context))
    &&& inv.args@.len() + 1 == command.len()
    &&& forall|i: int|
        0 <= i < inv.args@.len() ==> (#[trigger] inv.args@[i])@ == apply_replacements(
            command[i + 1]@,
            server_pairs(context),
        )
    &&& inv.current_dir@ == context.repository_root@
    &&& pair_views(inv.env@) == server_env(context)
    &&& entries_resolve(context, plugin.extra@, inv.settings@, 0)
}

/// A runner for the plugins of one repository.
pub struct PluginRunner<'a> {
    pub repository_root: &'a str,
    pub repository_name: &'a str,
    pub config: &'a RepositoryConfig,
    pub workspace_fs_root: &'a str,
    pub default_plugins: &'a Vec<DefaultPluginDefinition>,
}

impl<'a> PluginRunner<'a> {
    /// A runner for `config`, found at `repository_root`.
    pub fn new(
        repository_root: &'a str,
        repository_name: &'a str,
        config: &'a RepositoryConfig,
        workspace_fs_root: &'a str,
        default_plugins: &'a Vec<DefaultPluginDefinition>,
    ) -> (r: PluginRunner<'a>)
        ensures
            r.repository_root == repository_root,
            r.repository_name == repository_name,
            r.config == config,
            r.workspace_fs_root == workspace_fs_root,
            r.default_plugins == default_plugins,
    {
        PluginRunner { repository_root, repository_name, config, workspace_fs_root, default_plugins }
    }

    /// The plugin called `plugin_name` and the context to run it in, or
    /// `plugin not found`.
    pub fn plugin_context(&self, plugin_name: &str, user_identity: &UserIdentity) -> (r: Result<
        (usize, PluginContext),
        PluginError,
    >)
        ensures
            match r {
                Ok((k, c)) => k < self.config.plugin@.len() && self.config.plugin@[k as int].name@
                    == plugin_name@ && (forall|j: int|
                    0 <= j < k ==> self.config.plugin@[j].name@ != plugin_name@)
                    && c.repository_root@ == self.repository_root@ && c.repository_name@
                    == self.repository_name@ && c.plugin_name@ == plugin_name@
                    && c.output_directory@ == plugin_dir(
                    self.repository_root@,
                    plugin_name@,
                    "generated"@,
                ) && c.cache_directory@ == plugin_dir(self.repository_root@, plugin_name@, "cache"@)
                    && c.mount_url == self.config.plugin@[k as int].mount && c.user_identity@
                    == user_identity@ && c.workspace_fs_root@ == self.workspace_fs_root@,
                Err(e) => e@ == PluginErrorView::PluginNotFound(plugin_name@) && forall|j: int|
                    0 <= j < self.config.plugin@.len() ==> self.config.plugin@[j].name@
                        != plugin_name@,
            },
    {
        match self.config.find_plugin_index(plugin_name) {
            None => Err(PluginError::PluginNotFound(String::from_str(plugin_name))),
            Some(k) => {
                let plugin = &self.config.plugin[k];
                let c = PluginContext::for_plugin(
                    self.repository_root,
                    self.repository_name,
                    plugin,
                    user_identity,
                    self.workspace_fs_root,
                );
                Ok((k, c))
            },
        }
    }

    /// The process that runs `plugin` in `context`: its command line with
    /// placeholders expanded, its environment and its resolved settings;
    /// or the first error met resolving the command line, then the
    /// settings.
    pub fn invocation(&self, plugin: &PluginConfig, context: &PluginContext) -> (r: Result<
        PluginInvocation,
        PluginError,
    >)
        requires
            plugin.runner@ == "command"@ ==> plugin.command@.len() > 0,
            plugin.wf(),
        ensures
            match r {
                Ok(inv) => spec_plugin_command(
                    plugin.runner@,
                    plugin.name@,
                    plugin.command@,
                    self.default_plugins@,
                ) matches Ok(command) && first_error_entries(*context, plugin.extra@, 0) is None
                    && invocation_matches(inv, *plugin, *context, command) && keys_ordered(
                    entry_keys(inv.settings@),
                ),
                Err(e) => match spec_plugin_command(
                    plugin.runner@,
                    plugin.name@,
                    plugin.command@,
                    self.default_plugins@,
                ) {
                    Err(ce) => e@ == ce,
                    Ok(_) => first_error_entries(*context, plugin.extra@, 0) == Some(e@),
                },
            },
    {
        let command = match resolve_plugin_command(
            plugin.runner.as_str(),
            plugin.name.as_str(),
            &plugin.command,
            self.default_plugins,
        ) {
            Ok(c) => c,
            Err(e) => {
                return Err(e);
            },
        };
        let pairs = context.pairs();
        let program = replace_each(command[0].as_str(), &pairs);
        let mut args: Vec<String> = Vec::new();
        let mut i: usize = 1;
        while i < command.len()
            invariant
                1 <= i <= command@.len(),
                pair_views(pairs@) == server_pairs(*context),
                patterns_nonempty(pair_views(pairs@)),
                args@.len() + 1 == i,
                forall|k: int|
                    0 <= k < args@.len() ==> (#[trigger] args@[k])@ == apply_replacements(
                        command@[k + 1]@,
                        server_pairs(*context),
                    ),
            decreases command@.len() - i,
        {
            args.push(replace_each(command[i].as_str(), &pairs));
            i = i + 1;
        }
        let settings = match resolved_plugin_settings(plugin, context) {
            Ok(v) => v,
            Err(e) => {
                return Err(e);
            },
        };
        proof {
            lemma_entries_resolve_ordered(*context, plugin.extra@, settings@);
        }
        Ok(
            PluginInvocation {
                program,
                args,
                current_dir: context.repository_root.clone(),
                env: context.env(),
                settings,
            },
        )
    }
}

} // verus!
