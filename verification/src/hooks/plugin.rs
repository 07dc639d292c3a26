//! Preparing a hook or manual plugin run: its trigger, the paths it fires
//! on, the mounts of its dependencies, the placeholders of its command
//! line and settings, and the process it becomes.
use vstd::prelude::*;

use crate::hooks::config::{PluginConfig, RepositoryConfig};
use crate::path::{join_path, join_text, lemma_join_path_keeps_out, WorkspacePath};
use crate::plugins::{
    apply_replacements, expand_all, expand_items, lemma_brace_pattern_absent,
    lemma_braced_holds_only_itself, lemma_default_root_pattern, lemma_replace_whole,
    lemma_replacements_absent, lemma_replacements_append, pair_views, patterns_nonempty,
    replace_each,
    resolve_plugin_command, spec_plugin_command, DefaultPluginDefinition, PluginError,
    PluginErrorView, PluginInvocation,
};
use crate::policy::{policy_matches, rule_matches};
use crate::server::identity::UserIdentity;
use crate::setting_value::{
    entries_resolve, first_error_entries, resolve_entries, SettingExpander, SettingValue,
};
use crate::settings::is_ascii_alnum;
use crate::text::{
    chars_of, contains_chars, contains_seq, has_char, lemma_seq_lt_total, lemma_seq_lt_transitive,
    same_text, seq_lt, string_of, text_less, entry_keys, keys_ordered,
};

verus! {

/// What fires a plugin: a request method, or a run by hand.
#[derive(Debug, Clone, Copy, PartialEq, Eq, Structural)]
pub enum PluginTrigger {
    Get,
    Post,
    Put,
    Delete,
    Manual,
}

impl PluginTrigger {
    /// The name of the trigger in the configuration.
    pub open spec fn spec_name(self) -> Seq<char> {
        match self {
            PluginTrigger::Get => "GET"@,
            PluginTrigger::Post => "POST"@,
            PluginTrigger::Put => "PUT"@,
            PluginTrigger::Delete => "DELETE"@,
            PluginTrigger::Manual => "manual"@,
        }
    }

    /// The name of the trigger in the configuration.
    pub fn as_str(self) -> (r: &'static str)
        ensures
            r@ == self.spec_name(),
    {
        match self {
            PluginTrigger::Get => "GET",
            PluginTrigger::Post => "POST",
            PluginTrigger::Put => "PUT",
            PluginTrigger::Delete => "DELETE",
            PluginTrigger::Manual => "manual",
        }
    }
}

/// Different triggers have different names.
pub proof fn lemma_trigger_names_distinct(a: PluginTrigger, b: PluginTrigger)
    ensures
        a != b ==> a.spec_name() != b.spec_name(),
{
    reveal_strlit("GET");
    reveal_strlit("POST");
    reveal_strlit("PUT");
    reveal_strlit("DELETE");
    reveal_strlit("manual");
    if a != b {
        assert(a.spec_name().len() != b.spec_name().len() || a.spec_name()[0] != b.spec_name()[0]
            || a.spec_name()[1] != b.spec_name()[1]);
    }
}

/// The trigger named `trigger`, or `unsupported plugin trigger`.
pub fn parse_trigger(trigger: &str) -> (r: Result<PluginTrigger, PluginError>)
    ensures
        match r {
            Ok(t) => t.spec_name() == trigger@,
            Err(e) => e@ == PluginErrorView::UnsupportedTrigger(trigger@) && forall|t: PluginTrigger|
                t.spec_name() != trigger@,
        },
{
    if same_text(trigger, "GET") {
        Ok(PluginTrigger::Get)
    } else if same_text(trigger, "POST") {
        Ok(PluginTrigger::Post)
    } else if same_text(trigger, "PUT") {
        Ok(PluginTrigger::Put)
    } else if same_text(trigger, "DELETE") {
        Ok(PluginTrigger::Delete)
    } else if same_text(trigger, "manual") {
        Ok(PluginTrigger::Manual)
    } else {
        assert forall|t: PluginTrigger| t.spec_name() != trigger@ by {
            match t {
                PluginTrigger::Get => {},
                PluginTrigger::Post => {},
                PluginTrigger::Put => {},
                PluginTrigger::Delete => {},
                PluginTrigger::Manual => {},
            }
        }
        Err(PluginError::UnsupportedTrigger(String::from_str(trigger)))
    }
}

/// Whether `plugin` fires for requests on `path`: it must name a path,
/// which is the root, a directory `path` lies under, or `path` itself.
pub open spec fn spec_plugin_matches_path(plugin: PluginConfig, path: WorkspacePath) -> bool {
    match plugin.path {
        None => false,
        Some(p) => rule_matches(p, path),
    }
}

/// Whether `plugin` fires for requests on `path`.
pub fn plugin_matches_path(plugin: &PluginConfig, path: &WorkspacePath) -> (r: bool)
    ensures
        r == spec_plugin_matches_path(*plugin, *path),
{
    match &plugin.path {
        None => false,
        Some(p) => policy_matches(p, path),
    }
}

/// The character a plugin name's character becomes in an environment
/// variable name: ASCII letters upper-cased, digits kept, anything else `_`.
pub open spec fn env_char(c: char) -> char {
    if 'a' <= c && c <= 'z' {
        ((c as u32) - 32) as char
    } else if is_ascii_alnum(c) {
        c
    } else {
        '_'
    }
}

/// The environment variable that carries the mount of plugin `name`.
pub open spec fn spec_mount_env_name(name: Seq<char>) -> Seq<char> {
    "MOUNT_"@ + name.map_values(|c: char| env_char(c))
}

/// The environment variable that carries the mount of plugin `name`.
pub fn mount_env_name(plugin_name: &str) -> (r: String)
    ensures
        r@ == spec_mount_env_name(plugin_name@),
{
    let v = chars_of(plugin_name);
    let mut out: Vec<char> = Vec::new();
    out.push('M');
    out.push('O');
    out.push('U');
    out.push('N');
    out.push('T');
    out.push('_');
    proof {
        reveal_strlit("MOUNT_");
    }
    let mut i: usize = 0;
    while i < v.len()
        invariant
            v@ == plugin_name@,
            i <= v@.len(),
            out@ == "MOUNT_"@ + v@.subrange(0, i as int).map_values(|c: char| env_char(c)),
        decreases v@.len() - i,
    {
        let c = v[i];
        let e = if 'a' <= c && c <= 'z' {
            ((c as u8) - 32) as char
        } else if ('A' <= c && c <= 'Z') || ('0' <= c && c <= '9') {
            c
        } else {
            '_'
        };
        assert(e == env_char(c));
        out.push(e);
        assert(v@.subrange(0, i + 1).map_values(|c: char| env_char(c)) =~= v@.subrange(
            0,
            i as int,
        ).map_values(|c: char| env_char(c)).push(env_char(c)));
        i = i + 1;
    }
    assert(v@.subrange(0, v@.len() as int) =~= v@);
    string_of(&out)
}

/// The request-path placeholders.
pub open spec fn path_placeholders() -> Seq<Seq<char>> {
    seq!["{GET.PATH}"@, "{POST.PATH}"@, "{PUT.PATH}"@, "{DELETE.PATH}"@]
}

/// Whether `input` names the request path of some method.
pub open spec fn spec_contains_path_placeholder(input: Seq<char>) -> bool {
    exists|k: int| 0 <= k < 4 && contains_seq(input, #[trigger] path_placeholders()[k])
}

/// Whether `input` names the request path of some method.
pub fn contains_path_placeholder(input: &str) -> (r: bool)
    ensures
        r == spec_contains_path_placeholder(input@),
{
    let v = chars_of(input);
    let a = chars_of("{GET.PATH}");
    let b = chars_of("{POST.PATH}");
    let c = chars_of("{PUT.PATH}");
    let d = chars_of("{DELETE.PATH}");
    let r = contains_chars(&v, &a) || contains_chars(&v, &b) || contains_chars(&v, &c)
        || contains_chars(&v, &d);
    assert(r == spec_contains_path_placeholder(input@)) by {
        assert(path_placeholders()[0] == a@);
        assert(path_placeholders()[1] == b@);
        assert(path_placeholders()[2] == c@);
        assert(path_placeholders()[3] == d@);
    }
    r
}

/// The placeholders of the request path and identity for `trigger`.
pub open spec fn spec_request_placeholders(trigger: PluginTrigger) -> Option<(Seq<char>, Seq<char>)> {
    match trigger {
        PluginTrigger::Get => Some(("{GET.PATH}"@, "{GET.USER-IDENTITY}"@)),
        PluginTrigger::Post => Some(("{POST.PATH}"@, "{POST.USER-IDENTITY}"@)),
        PluginTrigger::Put => Some(("{PUT.PATH}"@, "{PUT.USER-IDENTITY}"@)),
        PluginTrigger::Delete => Some(("{DELETE.PATH}"@, "{DELETE.USER-IDENTITY}"@)),
        PluginTrigger::Manual => None,
    }
}

/// The placeholders of the request path and identity for `trigger`.
pub fn request_placeholders(trigger: PluginTrigger) -> (r: Option<(&'static str, &'static str)>)
    ensures
        match r {
            Some((p, u)) => spec_request_placeholders(trigger) == Some((p@, u@)),
            None => spec_request_placeholders(trigger) is None,
        },
{
    match trigger {
        PluginTrigger::Get => Some(("{GET.PATH}", "{GET.USER-IDENTITY}")),
        PluginTrigger::Post => Some(("{POST.PATH}", "{POST.USER-IDENTITY}")),
        PluginTrigger::Put => Some(("{PUT.PATH}", "{PUT.USER-IDENTITY}")),
        PluginTrigger::Delete => Some(("{DELETE.PATH}", "{DELETE.USER-IDENTITY}")),
        PluginTrigger::Manual => None,
    }
}

/// `l` with the key `k` set to `v`, keeping the keys in character order
/// (an insertion into an ordered map).
pub open spec fn sorted_insert(l: Seq<(Seq<char>, Seq<char>)>, k: Seq<char>, v: Seq<char>) -> Seq<
    (Seq<char>, Seq<char>),
>
    decreases l.len(),
{
    if l.len() == 0 {
        seq![(k, v)]
    } else if l[0].0 == k {
        seq![(k, v)] + l.drop_first()
    } else if seq_lt(k, l[0].0) {
        seq![(k, v)] + l
    } else {
        seq![l[0]] + sorted_insert(l.drop_first(), k, v)
    }
}

/// The keys of `l` ascend strictly in character order: an ordered map.
pub open spec fn keys_ascending(l: Seq<(Seq<char>, Seq<char>)>) -> bool {
    forall|i: int, j: int| 0 <= i < j < l.len() ==> seq_lt(#[trigger] l[i].0, #[trigger] l[j].0)
}

/// Setting a key of an ordered map keeps it ordered, holds the new entry,
/// keeps every entry with another key, and adds nothing else.
pub proof fn lemma_sorted_insert_ordered(l: Seq<(Seq<char>, Seq<char>)>, k: Seq<char>, v: Seq<char>)
    requires
        keys_ascending(l),
    ensures
        keys_ascending(sorted_insert(l, k, v)),
        sorted_insert(l, k, v).contains((k, v)),
        forall|i: int| 0 <= i < l.len() && l[i].0 != k ==> sorted_insert(l, k, v).contains(#[trigger] l[i]),
        forall|e: (Seq<char>, Seq<char>)| #[trigger] sorted_insert(l, k, v).contains(e) ==> e == (k, v) || l.contains(e),
    decreases l.len(),
{
    let r = sorted_insert(l, k, v);
    if l.len() == 0 {
        assert(r[0] == (k, v));
    } else if l[0].0 == k || seq_lt(k, l[0].0) {
        let rest = if l[0].0 == k { l.drop_first() } else { l };
        assert(r =~= seq![(k, v)] + rest);
        assert(r[0] == (k, v));
        assert forall|i: int, j: int| 0 <= i < j < r.len() implies seq_lt(#[trigger] r[i].0, #[trigger] r[j].0) by {
            if i == 0 {
                if l[0].0 == k {
                    assert(r[j] == l[j]);
                    assert(seq_lt(l[0].0, l[j].0));
                } else {
                    assert(r[j] == l[j - 1]);
                    if j - 1 > 0 {
                        assert(seq_lt(l[0].0, l[j - 1].0));
                        lemma_seq_lt_transitive(k, l[0].0, l[j - 1].0);
                    }
                }
            } else if l[0].0 == k {
                assert(r[i] == l[i] && r[j] == l[j]);
            } else {
                assert(r[i] == l[i - 1] && r[j] == l[j - 1]);
            }
        }
        assert forall|i: int| 0 <= i < l.len() && l[i].0 != k implies r.contains(#[trigger] l[i]) by {
            if l[0].0 == k {
                assert(r[i] == l[i]);
            } else {
                assert(r[i + 1] == l[i]);
            }
        }
        assert forall|e: (Seq<char>, Seq<char>)| #[trigger] r.contains(e) implies e == (k, v) || l.contains(e) by {
            let m = choose|m: int| 0 <= m < r.len() && r[m] == e;
            if m > 0 {
                if l[0].0 == k {
                    assert(l[m] == e);
                } else {
                    assert(l[m - 1] == e);
                }
            }
        }
    } else {
        let t = l.drop_first();
        assert(keys_ascending(t)) by {
            assert forall|i: int, j: int| 0 <= i < j < t.len() implies seq_lt(#[trigger] t[i].0, #[trigger] t[j].0) by {
                assert(t[i] == l[i + 1] && t[j] == l[j + 1]);
            }
        }
        lemma_sorted_insert_ordered(t, k, v);
        let rt = sorted_insert(t, k, v);
        assert(r =~= seq![l[0]] + rt);
        lemma_seq_lt_total(k, l[0].0);
        assert forall|i: int, j: int| 0 <= i < j < r.len() implies seq_lt(#[trigger] r[i].0, #[trigger] r[j].0) by {
            if i == 0 {
                assert(r[j] == rt[j - 1]);
                assert(rt.contains(rt[j - 1]));
                if rt[j - 1] != (k, v) {
                    let m = choose|m: int| 0 <= m < t.len() && t[m] == rt[j - 1];
                    assert(t[m] == l[m + 1]);
                }
            } else {
                assert(r[i] == rt[i - 1] && r[j] == rt[j - 1]);
            }
        }
        assert(rt.contains((k, v)));
        assert(r.contains((k, v))) by {
            let m = choose|m: int| 0 <= m < rt.len() && rt[m] == (k, v);
            assert(r[m + 1] == (k, v));
        }
        assert forall|i: int| 0 <= i < l.len() && l[i].0 != k implies r.contains(#[trigger] l[i]) by {
            if i == 0 {
                assert(r[0] == l[0]);
            } else {
                assert(t[i - 1] == l[i]);
                assert(rt.contains(t[i - 1]));
                let m = choose|m: int| 0 <= m < rt.len() && rt[m] == l[i];
                assert(r[m + 1] == l[i]);
            }
        }
        assert forall|e: (Seq<char>, Seq<char>)| #[trigger] r.contains(e) implies e == (k, v) || l.contains(e) by {
            let m = choose|m: int| 0 <= m < r.len() && r[m] == e;
            if m > 0 {
                assert(rt[m - 1] == e);
                assert(rt.contains(e));
                if e != (k, v) {
                    let n = choose|n: int| 0 <= n < t.len() && t[n] == e;
                    assert(l[n + 1] == e);
                }
            } else {
                assert(l[0] == e);
            }
        }
    }
}

/// Sets the key `k` of the ordered map `m` to `v`.
pub fn insert_sorted(m: &mut Vec<(String, String)>, k: String, v: String)
    ensures
        pair_views(final(m)@) == sorted_insert(pair_views(old(m)@), k@, v@),
{
    let ghost l = pair_views(m@);
    let mut i: usize = 0;
    assert(l.skip(0) =~= l);
    assert(l.subrange(0, 0) + sorted_insert(l, k@, v@) =~= sorted_insert(l, k@, v@));
    while i < m.len() && !same_text(m[i].0.as_str(), k.as_str()) && !text_less(
        k.as_str(),
        m[i].0.as_str(),
    )
        invariant
            l == pair_views(m@),
            i <= m@.len(),
            sorted_insert(l, k@, v@) == l.subrange(0, i as int) + sorted_insert(
                l.skip(i as int),
                k@,
                v@,
            ),
        decreases m@.len() - i,
    {
        proof {
            let rest = l.skip(i as int);
            assert(rest[0] == l[i as int]);
            assert(rest.drop_first() =~= l.skip(i + 1));
            assert(l.subrange(0, i + 1) =~= l.subrange(0, i as int).push(l[i as int]));
            assert(l.subrange(0, i as int) + (seq![rest[0]] + sorted_insert(rest.drop_first(), k@, v@))
                =~= l.subrange(0, i + 1) + sorted_insert(l.skip(i + 1), k@, v@));
        }
        i = i + 1;
    }
    proof {
        assert(l.skip(i as int).len() == l.len() - i);
    }
    if i < m.len() && same_text(m[i].0.as_str(), k.as_str()) {
        m.set(i, (k, v));
        proof {
            let rest = l.skip(i as int);
            assert(rest.drop_first() =~= l.skip(i + 1));
            assert(pair_views(m@) =~= l.subrange(0, i as int) + (seq![(k@, v@)] + rest.drop_first()));
        }
    } else {
        m.insert(i, (k, v));
        proof {
            let rest = l.skip(i as int);
            assert(pair_views(m@) =~= l.subrange(0, i as int) + (seq![(k@, v@)] + rest));
        }
    }
}

/// The plugin of `plugins` found for the dependency `d`: the first with
/// that name.
#[verifier::opaque]
pub open spec fn first_named(plugins: Seq<PluginConfig>, d: Seq<char>) -> Option<int> {
    if exists|j: int| 0 <= j < plugins.len() && (#[trigger] plugins[j]).name@ == d {
        Some(
            choose|j: int|
                0 <= j < plugins.len() && (#[trigger] plugins[j]).name@ == d && forall|i: int|
                    0 <= i < j ==> plugins[i].name@ != d,
        )
    } else {
        None
    }
}

/// The mounts of the dependencies `deps[..i]`, keyed by environment
/// variable name in character order, or the first dependency not found.
pub open spec fn spec_dependency_mounts(
    plugins: Seq<PluginConfig>,
    deps: Seq<String>,
    i: int,
) -> Result<Seq<(Seq<char>, Seq<char>)>, PluginErrorView>
    decreases i,
{
    if i <= 0 {
        Ok(Seq::empty())
    } else {
        match spec_dependency_mounts(plugins, deps, i - 1) {
            Err(e) => Err(e),
            Ok(m) => {
                let d = deps[i - 1]@;
                match first_named(plugins, d) {
                    None => Err(PluginErrorView::PluginNotFound(d)),
                    Some(j) => match plugins[j].mount {
                        None => Ok(m),
                        Some(mount) => Ok(sorted_insert(m, spec_mount_env_name(d), mount@)),
                    },
                }
            },
        }
    }
}

/// The mounts handed to a plugin form an ordered map: their variable
/// names ascend in character order, each once.
pub proof fn lemma_dependency_mounts_ordered(plugins: Seq<PluginConfig>, deps: Seq<String>, i: int)
    requires
        spec_dependency_mounts(plugins, deps, i) is Ok,
    ensures
        keys_ascending(spec_dependency_mounts(plugins, deps, i)->Ok_0),
    decreases i,
{
    if i > 0 {
        lemma_dependency_mounts_ordered(plugins, deps, i - 1);
        let m = spec_dependency_mounts(plugins, deps, i - 1)->Ok_0;
        let d = deps[i - 1]@;
        let j = first_named(plugins, d)->0;
        if let Some(mount) = plugins[j].mount {
            lemma_sorted_insert_ordered(m, spec_mount_env_name(d), mount@);
        }
    }
}

/// Mounts whose variable names ascend, read as keyed entries, ascend too.
pub proof fn lemma_mounts_keys_ordered(m: Seq<(String, String)>)
    requires
        keys_ascending(pair_views(m)),
    ensures
        keys_ordered(entry_keys(m)),
{
    assert forall|i: int, j: int| 0 <= i < j < entry_keys(m).len() implies seq_lt(
        #[trigger] entry_keys(m)[i],
        #[trigger] entry_keys(m)[j],
    ) by {
        assert(pair_views(m)[i].0 == entry_keys(m)[i]);
        assert(pair_views(m)[j].0 == entry_keys(m)[j]);
    }
}

pub proof fn lemma_first_named(plugins: Seq<PluginConfig>, d: Seq<char>, j: int)
    requires
        0 <= j < plugins.len(),
        plugins[j].name@ == d,
        forall|i: int| 0 <= i < j ==> plugins[i].name@ != d,
    ensures
        first_named(plugins, d) == Some(j),
{
    reveal(first_named);
    let k = choose|k: int|
        0 <= k < plugins.len() && (#[trigger] plugins[k]).name@ == d && forall|i: int|
            0 <= i < k ==> plugins[i].name@ != d;
    assert(0 <= k < plugins.len() && plugins[k].name@ == d && forall|i: int|
        0 <= i < k ==> plugins[i].name@ != d);
    if k < j {
        assert(plugins[k].name@ != d);
    }
    if j < k {
        assert(plugins[j].name@ != d);
    }
}

proof fn lemma_mounts_error_stays(plugins: Seq<PluginConfig>, deps: Seq<String>, i: int, n: int)
    requires
        0 < i <= n,
        spec_dependency_mounts(plugins, deps, i) is Err,
    ensures
        spec_dependency_mounts(plugins, deps, n) == spec_dependency_mounts(plugins, deps, i),
    decreases n - i,
{
    if n > i {
        lemma_mounts_error_stays(plugins, deps, i, n - 1);
    }
}

pub proof fn lemma_none_named(plugins: Seq<PluginConfig>, d: Seq<char>)
    requires
        forall|i: int| 0 <= i < plugins.len() ==> plugins[i].name@ != d,
    ensures
        first_named(plugins, d) is None,
{
    reveal(first_named);
}

/// The mounts of the dependencies of `plugin`, keyed by environment
/// variable name.
pub fn dependency_mounts(config: &RepositoryConfig, plugin: &PluginConfig) -> (r: Result<
    Vec<(String, String)>,
    PluginError,
>)
    ensures
        match r {
            Ok(m) => spec_dependency_mounts(config.plugin@, plugin.deps@, plugin.deps@.len() as int)
                == Ok::<Seq<(Seq<char>, Seq<char>)>, PluginErrorView>(pair_views(m@)),
            Err(e) => spec_dependency_mounts(config.plugin@, plugin.deps@, plugin.deps@.len() as int)
                == Err::<Seq<(Seq<char>, Seq<char>)>, PluginErrorView>(e@),
        },
{
    let mut mounts: Vec<(String, String)> = Vec::new();
    let mut i: usize = 0;
    assert(pair_views(mounts@) =~= Seq::<(Seq<char>, Seq<char>)>::empty());
    while i < plugin.deps.len()
        invariant
            i <= plugin.deps@.len(),
            spec_dependency_mounts(config.plugin@, plugin.deps@, i as int) == Ok::<
                Seq<(Seq<char>, Seq<char>)>,
                PluginErrorView,
            >(pair_views(mounts@)),
        decreases plugin.deps@.len() - i,
    {
        let name = &plugin.deps[i];
        match config.find_plugin_index(name.as_str()) {
            None => {
                proof {
                    lemma_none_named(config.plugin@, name@);
                    lemma_mounts_error_stays(
                        config.plugin@,
                        plugin.deps@,
                        i + 1,
                        plugin.deps@.len() as int,
                    );
                }
                return Err(PluginError::PluginNotFound(name.clone()));
            },
            Some(j) => {
                proof {
                    lemma_first_named(config.plugin@, name@, j as int);
                }
                match &config.plugin[j].mount {
                    None => {},
                    Some(mount) => {
                        insert_sorted(&mut mounts, mount_env_name(name.as_str()), mount.clone());
                    },
                }
            },
        }
        i = i + 1;
    }
    Ok(mounts)
}

/// Where a plugin runs, for whom and on which path.
#[derive(Debug)]
pub struct PluginContext {
    pub repository_root: String,
    pub repository_name: String,
    pub plugin_name: String,
    pub output_directory: String,
    pub cache_directory: String,
    pub mount_url: Option<String>,
    /// The mounts of the plugin's dependencies, keyed by environment
    /// variable name in character order.
    pub dependency_mounts: Vec<(String, String)>,
    pub path: Option<WorkspacePath>,
    pub user_identity: UserIdentity,
    /// The directory of the server's sources; the bundled plugins lie in
    /// `../default_plugins` from it.
    pub workspace_fs_root: String,
}

/// The directory `<root>/.repo/<plugin>/<leaf>`.
pub open spec fn plugin_dir(root: Seq<char>, plugin: Seq<char>, leaf: Seq<char>) -> Seq<char> {
    join_path(join_path(join_path(root, ".repo"@), plugin), leaf)
}

/// `{name}`.
pub open spec fn braced(name: Seq<char>) -> Seq<char> {
    seq!['{'] + name + seq!['}']
}

/// The request path as text, empty when there is none.
pub open spec fn path_text(p: Option<WorkspacePath>) -> Seq<char> {
    match p {
        Some(w) => w.text(),
        None => Seq::empty(),
    }
}

/// The fixed placeholders of a command line and what replaces them.
pub open spec fn base_pairs(c: PluginContext) -> Seq<(Seq<char>, Seq<char>)> {
    seq![
        ("{REPOSITORY_ROOT}"@, c.repository_root@),
        ("{REPOSITORY_NAME}"@, c.repository_name@),
        ("{PLUGIN_NAME}"@, c.plugin_name@),
        ("{OUTPOST_DIRECTORY}"@, c.output_directory@),
        ("{OUTPUT_DIRECTORY}"@, c.output_directory@),
        ("{WORKSPACE_FS_ROOT}"@, c.workspace_fs_root@),
        ("{DEFAULT_PLUGINS_ROOT}"@, join_path(c.workspace_fs_root@, "../default_plugins"@)),
    ]
}

/// The plugin's own mount placeholder, if it has a mount.
pub open spec fn mount_pairs(c: PluginContext) -> Seq<(Seq<char>, Seq<char>)> {
    match c.mount_url {
        Some(m) => seq![("{MOUNT_URL}"@, m@)],
        None => Seq::empty(),
    }
}

/// One `{MOUNT_...}` placeholder per dependency mount.
pub open spec fn dependency_pairs(c: PluginContext) -> Seq<(Seq<char>, Seq<char>)> {
    pair_views(c.dependency_mounts@).map_values(|e: (Seq<char>, Seq<char>)| (braced(e.0), e.1))
}

/// The request path and identity placeholders of `trigger`.
pub open spec fn request_pairs(c: PluginContext, trigger: PluginTrigger) -> Seq<(Seq<char>, Seq<char>)> {
    match spec_request_placeholders(trigger) {
        Some((p, u)) => seq![(p, path_text(c.path)), (u, c.user_identity@)],
        None => Seq::empty(),
    }
}

/// The placeholders of a command line and what replaces them, in the
/// order they are applied.
pub open spec fn hook_pairs(c: PluginContext, trigger: PluginTrigger) -> Seq<(Seq<char>, Seq<char>)> {
    base_pairs(c) + mount_pairs(c) + dependency_pairs(c) + request_pairs(c, trigger)
}

/// What a command-line argument or setting becomes: refused when it names
/// the request path and there is none, or when a brace is left after the
/// replacements.
pub open spec fn spec_hook_expand(input: Seq<char>, c: PluginContext, trigger: PluginTrigger) -> Result<
    Seq<char>,
    PluginErrorView,
> {
    if c.path is None && spec_contains_path_placeholder(input) {
        Err(PluginErrorView::PathPlaceholderWithoutPath(input))
    } else {
        let v = apply_replacements(input, hook_pairs(c, trigger));
        if v.contains('{') || v.contains('}') {
            Err(PluginErrorView::UnknownPlaceholder(input))
        } else {
            Ok(v)
        }
    }
}

/// `{DEFAULT_PLUGINS_ROOT}` expands to the `default_plugins` directory
/// beside the server's sources, whenever their directory holds no `{`.
pub proof fn lemma_default_plugins_root_expands(c: PluginContext, trigger: PluginTrigger)
    requires
        !c.workspace_fs_root@.contains('{'),
    ensures
        apply_replacements("{DEFAULT_PLUGINS_ROOT}"@, hook_pairs(c, trigger)) == join_path(
            c.workspace_fs_root@,
            "../default_plugins"@,
        ),
{
    reveal_strlit("{REPOSITORY_ROOT}");
    reveal_strlit("{REPOSITORY_NAME}");
    reveal_strlit("{PLUGIN_NAME}");
    reveal_strlit("{OUTPOST_DIRECTORY}");
    reveal_strlit("{OUTPUT_DIRECTORY}");
    reveal_strlit("{WORKSPACE_FS_ROOT}");
    reveal_strlit("{MOUNT_URL}");
    reveal_strlit("{GET.PATH}");
    reveal_strlit("{GET.USER-IDENTITY}");
    reveal_strlit("{POST.PATH}");
    reveal_strlit("{POST.USER-IDENTITY}");
    reveal_strlit("{PUT.PATH}");
    reveal_strlit("{PUT.USER-IDENTITY}");
    reveal_strlit("{DELETE.PATH}");
    reveal_strlit("{DELETE.USER-IDENTITY}");
    reveal_strlit("../default_plugins");
    lemma_default_root_pattern();
    let t = "{DEFAULT_PLUGINS_ROOT}"@;
    let rel = "../default_plugins"@;
    assert(rel =~= seq![
        '.', '.', '/', 'd', 'e', 'f', 'a', 'u', 'l', 't', '_', 'p', 'l', 'u', 'g', 'i', 'n', 's',
    ]);
    let v = join_path(c.workspace_fs_root@, rel);
    let pairs = hook_pairs(c, trigger);
    let head = pairs.subrange(0, 6);
    let rest = pairs.subrange(6, pairs.len() as int);
    assert(pairs =~= head + rest);
    lemma_replacements_append(t, head, rest);
    assert forall|k: int| 0 <= k < head.len() implies !contains_seq(t, (#[trigger] head[k]).0) by {
        let q = head[k].0;
        assert(q.len() >= 2 && q[0] == '{' && q[q.len() - 1] == '}');
        assert(q.len() != t.len());
        if contains_seq(t, q) {
            lemma_braced_holds_only_itself(t, q);
        }
    }
    lemma_replacements_absent(t, head);
    assert(rest[0] == (t, v));
    lemma_replace_whole(t, v);
    let tail = rest.drop_first();
    let m = mount_pairs(c);
    let d = dependency_pairs(c);
    let q = request_pairs(c, trigger);
    assert(tail =~= m + d + q);
    assert(!v.contains('{')) by {
        assert(!rel.contains('{'));
        lemma_join_path_keeps_out(c.workspace_fs_root@, rel, '{');
    }
    assert forall|k: int| 0 <= k < tail.len() implies !contains_seq(v, (#[trigger] tail[k]).0) by {
        let x = tail[k].0;
        if k < m.len() {
            assert(x == m[k].0);
        } else if k < m.len() + d.len() {
            assert(x == d[k - m.len()].0);
        } else {
            assert(x == q[k - m.len() - d.len()].0);
        }
        assert(x.len() > 0 && x[0] == '{');
        lemma_brace_pattern_absent(v, x);
    }
    lemma_replacements_absent(v, tail);
}

/// An expanded text holds no brace.
pub proof fn lemma_expanded_has_no_braces(input: Seq<char>, c: PluginContext, trigger: PluginTrigger)
    requires
        spec_hook_expand(input, c, trigger) is Ok,
    ensures
        !spec_hook_expand(input, c, trigger)->Ok_0.contains('{'),
        !spec_hook_expand(input, c, trigger)->Ok_0.contains('}'),
{
}

/// A text with a brace in which no placeholder of the context occurs
/// (such as a placeholder of another trigger) is refused as an unknown
/// placeholder, unless it names the request path where there is none.
pub proof fn lemma_foreign_placeholder_refused(input: Seq<char>, c: PluginContext, trigger: PluginTrigger)
    requires
        input.contains('{') || input.contains('}'),
        forall|k: int|
            0 <= k < hook_pairs(c, trigger).len() ==> !contains_seq(
                input,
                (#[trigger] hook_pairs(c, trigger)[k]).0,
            ),
        !(c.path is None && spec_contains_path_placeholder(input)),
    ensures
        spec_hook_expand(input, c, trigger) == Err::<Seq<char>, PluginErrorView>(
            PluginErrorView::UnknownPlaceholder(input),
        ),
{
    lemma_replacements_absent(input, hook_pairs(c, trigger));
}

/// The fixed part of the environment of the plugin process.
pub open spec fn base_env(c: PluginContext, trigger: PluginTrigger) -> Seq<(Seq<char>, Seq<char>)> {
    seq![
        ("WORKSPACE_FS_REPOSITORY_ROOT"@, c.repository_root@),
        ("WORKSPACE_FS_REPOSITORY_NAME"@, c.repository_name@),
        ("WORKSPACE_FS_PLUGIN_NAME"@, c.plugin_name@),
        ("WORKSPACE_FS_OUTPUT_DIRECTORY"@, c.output_directory@),
        ("WORKSPACE_FS_CACHE_DIRECTORY"@, c.cache_directory@),
        ("WORKSPACE_FS_TRIGGER"@, trigger.spec_name()),
        ("WORKSPACE_FS_USER_IDENTITY"@, c.user_identity@),
    ]
}

/// The plugin's own mount variable, if it has a mount.
pub open spec fn mount_env(c: PluginContext) -> Seq<(Seq<char>, Seq<char>)> {
    match c.mount_url {
        Some(m) => seq![("MOUNT_URL"@, m@)],
        None => Seq::empty(),
    }
}

/// The request path variable, if there is a request path.
pub open spec fn path_env(c: PluginContext) -> Seq<(Seq<char>, Seq<char>)> {
    match c.path {
        Some(p) => seq![("WORKSPACE_FS_PATH"@, p.text())],
        None => Seq::empty(),
    }
}

/// The environment of the plugin process besides its settings, in the
/// order it is set.
pub open spec fn hook_env(c: PluginContext, trigger: PluginTrigger) -> Seq<(Seq<char>, Seq<char>)> {
    base_env(c, trigger) + mount_env(c) + pair_views(c.dependency_mounts@) + path_env(c)
}

/// A pair of owned texts.
fn text_pair(a: &str, b: &str) -> (r: (String, String))
    ensures
        r.0@ == a@,
        r.1@ == b@,
{
    (String::from_str(a), String::from_str(b))
}

/// The context of a plugin together with the trigger it runs for.
pub struct TriggeredContext<'a> {
    pub context: &'a PluginContext,
    pub trigger: PluginTrigger,
}

impl<'a> SettingExpander for TriggeredContext<'a> {
    open spec fn spec_expand(&self, s: Seq<char>) -> Result<Seq<char>, PluginErrorView> {
        spec_hook_expand(s, *self.context, self.trigger)
    }

    open spec fn spec_float_error(&self) -> PluginErrorView {
        PluginErrorView::NonFiniteFloat
    }

    fn expand(&self, s: &str) -> (r: Result<String, PluginError>) {
        expand_placeholder(s, self.context, self.trigger)
    }

    fn float_error(&self) -> (e: PluginError) {
        PluginError::NonFiniteFloat
    }
}

impl PluginContext {
    /// Well-formed: each dependency mount variable once, in ascending
    /// character order.
    pub open spec fn wf(&self) -> bool {
        keys_ordered(entry_keys(self.dependency_mounts@))
    }

    /// The replacement pairs of this context for `trigger`.
    fn pairs(&self, trigger: PluginTrigger) -> (r: Vec<(String, String)>)
        ensures
            pair_views(r@) == hook_pairs(*self, trigger),
            patterns_nonempty(pair_views(r@)),
    {
        let mut v: Vec<(String, String)> = Vec::new();
        v.push(text_pair("{REPOSITORY_ROOT}", self.repository_root.as_str()));
        v.push(text_pair("{REPOSITORY_NAME}", self.repository_name.as_str()));
        v.push(text_pair("{PLUGIN_NAME}", self.plugin_name.as_str()));
        v.push(text_pair("{OUTPOST_DIRECTORY}", self.output_directory.as_str()));
        v.push(text_pair("{OUTPUT_DIRECTORY}", self.output_directory.as_str()));
        v.push(text_pair("{WORKSPACE_FS_ROOT}", self.workspace_fs_root.as_str()));
        let default_root = join_text(self.workspace_fs_root.as_str(), "../default_plugins");
        v.push(text_pair("{DEFAULT_PLUGINS_ROOT}", default_root.as_str()));
        match &self.mount_url {
            Some(m) => {
                v.push(text_pair("{MOUNT_URL}", m.as_str()));
            },
            None => {},
        }
        proof {
            reveal_strlit("{REPOSITORY_ROOT}");
            reveal_strlit("{REPOSITORY_NAME}");
            reveal_strlit("{PLUGIN_NAME}");
            reveal_strlit("{OUTPOST_DIRECTORY}");
            reveal_strlit("{OUTPUT_DIRECTORY}");
            reveal_strlit("{WORKSPACE_FS_ROOT}");
            reveal_strlit("{DEFAULT_PLUGINS_ROOT}");
            reveal_strlit("{MOUNT_URL}");
        }
        let ghost head = pair_views(v@);
        assert(head =~= base_pairs(*self) + mount_pairs(*self));
        let ghost deps = dependency_pairs(*self);
        let mut k: usize = 0;
        while k < self.dependency_mounts.len()
            invariant
                k <= self.dependency_mounts@.len(),
                deps == dependency_pairs(*self),
                pair_views(v@) == head + deps.subrange(0, k as int),
                patterns_nonempty(pair_views(v@)),
            decreases self.dependency_mounts@.len() - k,
        {
            let mut name = String::from_str("{");
            name.append(self.dependency_mounts[k].0.as_str());
            name.append("}");
            proof {
                reveal_strlit("{");
                reveal_strlit("}");
            }
            assert(name@ == braced(self.dependency_mounts@[k as int].0@));
            let ghost before = v@;
            v.push((name, self.dependency_mounts[k].1.clone()));
            proof {
                assert(deps[k as int] == (braced(self.dependency_mounts@[k as int].0@), self.dependency_mounts@[k as int].1@));
                assert(pair_views(v@) =~= pair_views(before).push(deps[k as int]));
                assert(deps.subrange(0, k + 1) =~= deps.subrange(0, k as int).push(deps[k as int]));
                assert(head + deps.subrange(0, k + 1) =~= (head + deps.subrange(0, k as int)).push(deps[k as int]));
            }
            k = k + 1;
        }
        assert(deps.subrange(0, deps.len() as int) =~= deps);
        let ghost mid = pair_views(v@);
        match request_placeholders(trigger) {
            Some((p, u)) => {
                let path = match &self.path {
                    Some(w) => w.as_str(),
                    None => "",
                };
                proof {
                    reveal_strlit("");
                    reveal_strlit("{GET.PATH}");
                    reveal_strlit("{POST.PATH}");
                    reveal_strlit("{PUT.PATH}");
                    reveal_strlit("{DELETE.PATH}");
                    reveal_strlit("{GET.USER-IDENTITY}");
                    reveal_strlit("{POST.USER-IDENTITY}");
                    reveal_strlit("{PUT.USER-IDENTITY}");
                    reveal_strlit("{DELETE.USER-IDENTITY}");
                }
                assert(path@ == path_text(self.path)) by {
                    if self.path is None {
                        assert(path@ =~= Seq::<char>::empty());
                    }
                }
                let ghost before = pair_views(v@);
                v.push(text_pair(p, path));
                v.push(text_pair(u, self.user_identity.as_str()));
                assert(request_pairs(*self, trigger) == seq![(p@, path@), (u@, self.user_identity@)]);
                assert(pair_views(v@) =~= mid + request_pairs(*self, trigger));
            },
            None => {
                assert(pair_views(v@) =~= mid + request_pairs(*self, trigger));
            },
        }
        v
    }

    /// The environment of the plugin process for `trigger`, without its
    /// settings.
    pub fn env(&self, trigger: PluginTrigger) -> (r: Vec<(String, String)>)
        ensures
            pair_views(r@) == hook_env(*self, trigger),
    {
        let mut v: Vec<(String, String)> = Vec::new();
        v.push(text_pair("WORKSPACE_FS_REPOSITORY_ROOT", self.repository_root.as_str()));
        v.push(text_pair("WORKSPACE_FS_REPOSITORY_NAME", self.repository_name.as_str()));
        v.push(text_pair("WORKSPACE_FS_PLUGIN_NAME", self.plugin_name.as_str()));
        v.push(text_pair("WORKSPACE_FS_OUTPUT_DIRECTORY", self.output_directory.as_str()));
        v.push(text_pair("WORKSPACE_FS_CACHE_DIRECTORY", self.cache_directory.as_str()));
        v.push(text_pair("WORKSPACE_FS_TRIGGER", trigger.as_str()));
        v.push(text_pair("WORKSPACE_FS_USER_IDENTITY", self.user_identity.as_str()));
        match &self.mount_url {
            Some(m) => {
                v.push(text_pair("MOUNT_URL", m.as_str()));
            },
            None => {},
        }
        let ghost head = pair_views(v@);
        assert(head =~= base_env(*self, trigger) + mount_env(*self));
        let mut k: usize = 0;
        while k < self.dependency_mounts.len()
            invariant
                k <= self.dependency_mounts@.len(),
                pair_views(v@) == head + pair_views(self.dependency_mounts@).subrange(0, k as int),
            decreases self.dependency_mounts@.len() - k,
        {
            let ghost before = v@;
            v.push(
                (self.dependency_mounts[k].0.clone(), self.dependency_mounts[k].1.clone()),
            );
            proof {
                let dv = pair_views(self.dependency_mounts@);
                assert(pair_views(v@) =~= pair_views(before).push(dv[k as int]));
                assert(dv.subrange(0, k + 1) =~= dv.subrange(0, k as int).push(dv[k as int]));
                assert(head + dv.subrange(0, k + 1) =~= (head + dv.subrange(0, k as int)).push(dv[k as int]));
            }
            k = k + 1;
        }
        assert(pair_views(self.dependency_mounts@).subrange(0, self.dependency_mounts@.len() as int)
            =~= pair_views(self.dependency_mounts@));
        let ghost mid = pair_views(v@);
        match &self.path {
            Some(p) => {
                v.push(text_pair("WORKSPACE_FS_PATH", p.as_str()));
                assert(pair_views(v@) =~= mid + path_env(*self));
            },
            None => {
                assert(pair_views(v@) =~= mid + path_env(*self));
            },
        }
        v
    }
}

/// `input` with the placeholders of `context` for `trigger` replaced.
pub fn expand_placeholder(input: &str, context: &PluginContext, trigger: PluginTrigger) -> (r: Result<
    String,
    PluginError,
>)
    ensures
        match r {
            Ok(t) => spec_hook_expand(input@, *context, trigger) == Ok::<Seq<char>, PluginErrorView>(
                t@,
            ),
            Err(e) => spec_hook_expand(input@, *context, trigger) == Err::<
                Seq<char>,
                PluginErrorView,
            >(e@),
        },
        r matches Ok(t) ==> !t@.contains('{') && !t@.contains('}'),
{
    if context.path.is_none() && contains_path_placeholder(input) {
        return Err(PluginError::PathPlaceholderWithoutPath(String::from_str(input)));
    }
    let pairs = context.pairs(trigger);
    let value = replace_each(input, &pairs);
    let vc = chars_of(value.as_str());
    if has_char(&vc, '{') || has_char(&vc, '}') {
        return Err(PluginError::UnknownPlaceholder(String::from_str(input)));
    }
    Ok(value)
}

/// The plugin's settings with their placeholders expanded, in key order.
pub fn resolved_plugin_settings(
    plugin: &PluginConfig,
    context: &PluginContext,
    trigger: PluginTrigger,
) -> (r: Result<Vec<(String, SettingValue)>, PluginError>)
    ensures
        match r {
            Ok(out) => first_error_entries(TriggeredContext { context, trigger }, plugin.extra@, 0)
                is None && entries_resolve(
                TriggeredContext { context, trigger },
                plugin.extra@,
                out@,
                0,
            ),
            Err(e) => first_error_entries(TriggeredContext { context, trigger }, plugin.extra@, 0)
                == Some(e@),
        },
{
    let x = TriggeredContext { context, trigger };
    resolve_entries(&x, &plugin.extra)
}

} // verus!
