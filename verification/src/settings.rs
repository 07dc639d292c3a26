//! Serving settings and the validation rules shared by every repository
//! configuration: URL prefixes, glob syntax, plugin names and the paths
//! that the virtual prefixes reserve.
use vstd::prelude::*;

use crate::path::{components_start_with, spec_from_path_str, PathError, WorkspacePath};
use crate::text::{
    chars_of, contains_seq, has_char, has_prefix, has_suffix, same_text, skip_char_backward,
    skip_char_forward, string_of_range, trim_char, trim_end_char, trim_start_char,
};

verus! {

/// The port and the URL prefixes of the virtual endpoints.
#[derive(Debug)]
pub struct ServeSettings {
    pub port: u16,
    pub plugin_url_prefix: String,
    pub policy_url_prefix: String,
    pub info_url_prefix: String,
}

/// Values given on the command line that replace the configured ones.
#[derive(Debug)]
pub struct ServeSettingsOverride {
    pub port: Option<u16>,
    pub plugin_url_prefix: Option<String>,
    pub policy_url_prefix: Option<String>,
    pub info_url_prefix: Option<String>,
}

impl ServeSettingsOverride {
    /// No overrides.
    pub fn none() -> (r: ServeSettingsOverride)
        ensures
            r.port is None,
            r.plugin_url_prefix is None,
            r.policy_url_prefix is None,
            r.info_url_prefix is None,
    {
        ServeSettingsOverride {
            port: None,
            plugin_url_prefix: None,
            policy_url_prefix: None,
            info_url_prefix: None,
        }
    }
}

/// The port used when none is configured.
pub fn default_port() -> (r: u16)
    ensures
        r == 3000,
{
    3000
}

/// The plugin prefix used when none is configured.
pub fn default_plugin_url_prefix() -> (r: String)
    ensures
        r@ == "/.plugin"@,
{
    String::from_str("/.plugin")
}

/// The policy prefix used when none is configured.
pub fn default_policy_url_prefix() -> (r: String)
    ensures
        r@ == "/.policy"@,
{
    String::from_str("/.policy")
}

/// The info prefix used when none is configured.
pub fn default_info_url_prefix() -> (r: String)
    ensures
        r@ == "/.info"@,
{
    String::from_str("/.info")
}

impl Default for ServeSettings {
    fn default() -> (r: Self)
        ensures
            r.port == 3000,
            r.plugin_url_prefix@ == "/.plugin"@,
            r.policy_url_prefix@ == "/.policy"@,
            r.info_url_prefix@ == "/.info"@,
    {
        ServeSettings {
            port: default_port(),
            plugin_url_prefix: default_plugin_url_prefix(),
            policy_url_prefix: default_policy_url_prefix(),
            info_url_prefix: default_info_url_prefix(),
        }
    }
}

impl ServeSettings {
    /// Replaces each setting for which an override is given.
    pub fn apply_overrides(&mut self, overrides: &ServeSettingsOverride)
        ensures
            final(self).port == (match overrides.port {
                Some(p) => p,
                None => old(self).port,
            }),
            final(self).plugin_url_prefix@ == (match overrides.plugin_url_prefix {
                Some(p) => p@,
                None => old(self).plugin_url_prefix@,
            }),
            final(self).policy_url_prefix@ == (match overrides.policy_url_prefix {
                Some(p) => p@,
                None => old(self).policy_url_prefix@,
            }),
            final(self).info_url_prefix@ == (match overrides.info_url_prefix {
                Some(p) => p@,
                None => old(self).info_url_prefix@,
            }),
    {
        if let Some(port) = overrides.port {
            self.port = port;
        }
        if let Some(prefix) = &overrides.plugin_url_prefix {
            self.plugin_url_prefix = prefix.clone();
        }
        if let Some(prefix) = &overrides.policy_url_prefix {
            self.policy_url_prefix = prefix.clone();
        }
        if let Some(prefix) = &overrides.info_url_prefix {
            self.info_url_prefix = prefix.clone();
        }
    }
}

/// Which virtual prefix a setting names.
#[derive(Debug, Clone, Copy, PartialEq, Eq, Structural)]
pub enum ServePrefix {
    Plugin,
    Policy,
    Info,
}

impl ServePrefix {
    /// The name of the setting.
    pub fn name(&self) -> (r: &'static str)
        ensures
            r@ == self.spec_name(),
    {
        match self {
            ServePrefix::Plugin => "serve.plugin_url_prefix",
            ServePrefix::Policy => "serve.policy_url_prefix",
            ServePrefix::Info => "serve.info_url_prefix",
        }
    }

    pub open spec fn spec_name(&self) -> Seq<char> {
        match self {
            ServePrefix::Plugin => "serve.plugin_url_prefix"@,
            ServePrefix::Policy => "serve.policy_url_prefix"@,
            ServePrefix::Info => "serve.info_url_prefix"@,
        }
    }
}

/// Whether `v` uses glob syntax (`*`, `?` or `[`).
pub open spec fn has_glob(v: Seq<char>) -> bool {
    v.contains('*') || v.contains('?') || v.contains('[')
}

/// A virtual URL prefix starts with `/`, does not end with `/`, and is
/// more than slashes.
pub open spec fn url_prefix_ok(v: Seq<char>) -> bool {
    has_prefix(v, seq!['/']) && trim_char(v, '/').len() > 0 && !has_suffix(v, seq!['/'])
}

pub open spec fn is_ascii_alpha(c: char) -> bool {
    ('A' <= c && c <= 'Z') || ('a' <= c && c <= 'z')
}

pub open spec fn is_ascii_alnum(c: char) -> bool {
    is_ascii_alpha(c) || ('0' <= c && c <= '9')
}

/// Plugin names match `[A-Za-z_][A-Za-z0-9_-]*`.
pub open spec fn plugin_name_ok(v: Seq<char>) -> bool {
    &&& v.len() > 0
    &&& (is_ascii_alpha(v[0]) || v[0] == '_')
    &&& forall|i: int| 1 <= i < v.len() ==> is_ascii_alnum(#[trigger] v[i]) || v[i] == '_' || v[i] == '-'
}

/// What a URL prefix denotes as a repository path (its leading slashes
/// dropped).
pub open spec fn spec_prefix_path(v: Seq<char>) -> Result<(Seq<Seq<char>>, bool), PathError> {
    spec_from_path_str(trim_start_char(v, '/'))
}

/// The paths reserved by the three virtual prefixes, in the order plugin,
/// policy, info, or the first error met while reading them.
pub open spec fn spec_reserved_paths(s: ServeSettings) -> Result<Seq<Seq<Seq<char>>>, PathError> {
    match spec_prefix_path(s.plugin_url_prefix@) {
        Err(e) => Err(e),
        Ok(a) => match spec_prefix_path(s.policy_url_prefix@) {
            Err(e) => Err(e),
            Ok(b) => match spec_prefix_path(s.info_url_prefix@) {
                Err(e) => Err(e),
                Ok(c) => Ok(seq![a.0, b.0, c.0]),
            },
        },
    }
}

/// Whether the path with components `p` lies under one of `reserved`.
pub open spec fn uses_reserved(p: Seq<Seq<char>>, reserved: Seq<Seq<Seq<char>>>) -> bool {
    exists|k: int| 0 <= k < reserved.len() && components_start_with(p, reserved[k])
}

/// The components of a list of paths.
pub open spec fn path_comps(v: Seq<WorkspacePath>) -> Seq<Seq<Seq<char>>> {
    v.map_values(|w: WorkspacePath| w.comps())
}

/// A URL prefix in plain terms: it starts with `/`, does not end with
/// `/`, and holds some character other than `/`.
pub open spec fn prefix_well_formed(v: Seq<char>) -> bool {
    &&& v.len() > 0
    &&& v[0] == '/'
    &&& v[v.len() - 1] != '/'
    &&& exists|j: int| 0 <= j < v.len() && v[j] != '/'
}

/// A path text without `*`, `?` or `[`.
pub open spec fn free_of_glob_chars(v: Seq<char>) -> bool {
    forall|j: int| 0 <= j < v.len() ==> #[trigger] v[j] != '*' && v[j] != '?' && v[j] != '['
}

/// A plugin name in plain terms: a letter or `_`, then letters, digits,
/// `_` and `-`.
pub open spec fn name_well_formed(v: Seq<char>) -> bool {
    &&& v.len() > 0
    &&& (('A' <= v[0] && v[0] <= 'Z') || ('a' <= v[0] && v[0] <= 'z') || v[0] == '_')
    &&& forall|i: int|
        1 <= i < v.len() ==> ('A' <= #[trigger] v[i] && v[i] <= 'Z') || ('a' <= v[i] && v[i] <= 'z')
            || ('0' <= v[i] && v[i] <= '9') || v[i] == '_' || v[i] == '-'
}

/// Leading `c`s removed leave something only when some character is not
/// `c`.
proof fn lemma_trim_start_leaves_other(s: Seq<char>, c: char)
    requires
        trim_start_char(s, c).len() > 0,
    ensures
        exists|j: int| 0 <= j < s.len() && s[j] != c,
    decreases s.len(),
{
    if s.len() > 0 && s[0] == c {
        lemma_trim_start_leaves_other(s.drop_first(), c);
        let j = choose|j: int| 0 <= j < s.drop_first().len() && s.drop_first()[j] != c;
        assert(s[j + 1] != c);
    } else {
        assert(s[0] != c);
    }
}

/// Trailing `c`s removed leave nothing from nothing.
proof fn lemma_trim_end_empty(s: Seq<char>, c: char)
    requires
        s.len() == 0,
    ensures
        trim_end_char(s, c).len() == 0,
{
}

/// What the prefix, glob and name checks accept, in plain terms.
pub proof fn lemma_checks_in_plain_terms(v: Seq<char>)
    ensures
        url_prefix_ok(v) ==> prefix_well_formed(v),
        !has_glob(v) ==> free_of_glob_chars(v),
        plugin_name_ok(v) ==> name_well_formed(v),
{
    if url_prefix_ok(v) {
        assert(v.subrange(0, 1)[0] == v[0]);
        if trim_start_char(v, '/').len() == 0 {
            lemma_trim_end_empty(trim_start_char(v, '/'), '/');
        }
        lemma_trim_start_leaves_other(v, '/');
        assert(v[v.len() - 1] != '/') by {
            if v[v.len() - 1] == '/' {
                assert(v.subrange(v.len() - 1, v.len() as int) =~= seq!['/']);
            }
        }
    }
    if !has_glob(v) {
        assert forall|j: int| 0 <= j < v.len() implies #[trigger] v[j] != '*' && v[j] != '?' && v[j]
            != '[' by {
            assert(v.contains(v[j]));
        }
    }
}

/// Whether `value` uses glob syntax.
pub fn contains_glob_metachar(value: &str) -> (r: bool)
    ensures
        r == has_glob(value@),
{
    let v = chars_of(value);
    has_char(&v, '*') || has_char(&v, '?') || has_char(&v, '[')
}

/// Whether `value` is an acceptable virtual URL prefix.
pub fn validate_url_prefix(value: &str) -> (r: bool)
    ensures
        r == url_prefix_ok(value@),
{
    let v = chars_of(value);
    let n = v.len();
    assert(v@.subrange(0, n as int) =~= v@);
    let starts = n > 0 && v[0] == '/';
    assert(starts == has_prefix(v@, seq!['/'])) by {
        if n > 0 {
            assert(v@.subrange(0, 1) =~= seq![v@[0]]);
            if has_prefix(v@, seq!['/']) {
                assert(seq![v@[0]][0] == '/');
            }
        }
    }
    let ends = n > 0 && v[n - 1] == '/';
    assert(ends == has_suffix(v@, seq!['/'])) by {
        if n > 0 {
            assert(v@.subrange(n - 1, n as int) =~= seq![v@[n - 1]]);
            if has_suffix(v@, seq!['/']) {
                assert(seq![v@[n - 1]][0] == '/');
            }
        }
    }
    let a = skip_char_forward(&v, 0, n, '/');
    let b = skip_char_backward(&v, a, n, '/');
    starts && a < b && !ends
}

/// Whether `value` matches `[A-Za-z_][A-Za-z0-9_-]*`.
pub fn is_valid_plugin_name(value: &str) -> (r: bool)
    ensures
        r == plugin_name_ok(value@),
{
    let v = chars_of(value);
    if v.len() == 0 {
        return false;
    }
    let first = v[0];
    if !(('A' <= first && first <= 'Z') || ('a' <= first && first <= 'z') || first == '_') {
        return false;
    }
    let mut i: usize = 1;
    while i < v.len()
        invariant
            1 <= i <= v@.len(),
            v@ == value@,
            forall|k: int| 1 <= k < i ==> is_ascii_alnum(#[trigger] v@[k]) || v@[k] == '_' || v@[k]
                == '-',
        decreases v@.len() - i,
    {
        let c = v[i];
        if !(('A' <= c && c <= 'Z') || ('a' <= c && c <= 'z') || ('0' <= c && c <= '9') || c == '_'
            || c == '-') {
            assert(value@[i as int] == c);
            assert(!(is_ascii_alnum(value@[i as int]) || value@[i as int] == '_' || value@[i as int]
                == '-'));
            return false;
        }
        i = i + 1;
    }
    true
}

/// The repository path a URL prefix denotes.
pub fn prefix_path(prefix: &str) -> (r: Result<WorkspacePath, PathError>)
    ensures
        match r {
            Ok(p) => spec_prefix_path(prefix@) == Ok::<(Seq<Seq<char>>, bool), PathError>(p@),
            Err(e) => spec_prefix_path(prefix@) == Err::<(Seq<Seq<char>>, bool), PathError>(e),
        },
{
    let v = chars_of(prefix);
    let a = skip_char_forward(&v, 0, v.len(), '/');
    assert(v@.subrange(0, v@.len() as int) =~= v@);
    let rest = string_of_range(&v, a, v.len());
    WorkspacePath::from_path_str(rest.as_str())
}

/// The paths reserved by the virtual prefixes (plugin, policy, info).
pub fn reserved_url_prefix_paths(settings: &ServeSettings) -> (r: Result<Vec<WorkspacePath>, PathError>)
    ensures
        match r {
            Ok(v) => spec_reserved_paths(*settings) matches Ok(cs) && v@.len() == 3 && forall|k: int|
                0 <= k < 3 ==> #[trigger] v@[k].comps() == cs[k],
            Err(e) => spec_reserved_paths(*settings) == Err::<Seq<Seq<Seq<char>>>, PathError>(e),
        },
{
    let a = prefix_path(settings.plugin_url_prefix.as_str())?;
    let b = prefix_path(settings.policy_url_prefix.as_str())?;
    let c = prefix_path(settings.info_url_prefix.as_str())?;
    let mut v: Vec<WorkspacePath> = Vec::new();
    v.push(a);
    v.push(b);
    v.push(c);
    Ok(v)
}

/// Whether `path` lies under one of the reserved paths.
pub fn path_uses_reserved_url_prefix(path: &WorkspacePath, reserved: &Vec<WorkspacePath>) -> (r: bool)
    ensures
        r == uses_reserved(path.comps(), path_comps(reserved@)),
{
    let mut i: usize = 0;
    while i < reserved.len()
        invariant
            i <= reserved@.len(),
            forall|k: int| 0 <= k < i ==> !components_start_with(path.comps(), reserved@[k].comps()),
        decreases reserved@.len() - i,
    {
        if path.starts_with(&reserved[i]) {
            assert(path_comps(reserved@)[i as int] == reserved@[i as int].comps());
            return true;
        }
        i = i + 1;
    }
    assert forall|k: int| 0 <= k < path_comps(reserved@).len() implies !components_start_with(
        path.comps(),
        path_comps(reserved@)[k],
    ) by {
        assert(path_comps(reserved@)[k] == reserved@[k].comps());
    }
    false
}

/// `a` followed by `b`.
pub fn concat(a: &str, b: &str) -> (r: String)
    ensures
        r@ == a@ + b@,
{
    let mut s = String::from_str(a);
    s.append(b);
    s
}

/// Why a repository configuration was refused.
#[derive(Debug)]
pub enum ConfigError {
    NameEmpty,
    InvalidUrlPrefix(ServePrefix),
    Path(PathError),
    DuplicatePrefix(ServePrefix, ServePrefix),
    PolicyGlob,
    PolicyRepo,
    PolicyReservedPrefix,
    IgnoreRoot,
    IgnoreGlob,
    IgnoreRepo,
    IgnoreReservedPrefix,
    InvalidPluginName(String),
    UnsupportedRunner(String),
    EmptyCommand,
    DefaultWithCommand(String),
    PluginPathGlob,
    PluginPathRepo,
    PluginPathReservedPrefix,
    InvalidDependencyName(String),
    SelfDependency(String),
    MissingDependency(String, String),
    ManualWithPath,
    NonManualWithoutPath,
    MountSlashes,
    MountReservedPrefix,
    MountConflict(String),
    DuplicateMount(String),
}

impl ConfigError {
    /// The message reported for the error.
    pub open spec fn spec_message(&self) -> Seq<char> {
        match self {
            ConfigError::NameEmpty => "name must not be empty"@,
            ConfigError::InvalidUrlPrefix(p) => p.spec_name()
                + " must start with /, must not be empty, and must not end with /"@,
            ConfigError::Path(e) => e.spec_message(),
            ConfigError::DuplicatePrefix(a, b) => a.spec_name() + " and "@ + b.spec_name()
                + " must be different"@,
            ConfigError::PolicyGlob => "policy path must not use glob syntax"@,
            ConfigError::PolicyRepo => "policy path must not target .repo/"@,
            ConfigError::PolicyReservedPrefix => "policy path must not target reserved url prefix"@,
            ConfigError::IgnoreRoot => "ignore path must not target repository root"@,
            ConfigError::IgnoreGlob => "ignore path must not use glob syntax"@,
            ConfigError::IgnoreRepo => "ignore path must not target .repo/"@,
            ConfigError::IgnoreReservedPrefix => "ignore path must not target reserved url prefix"@,
            ConfigError::InvalidPluginName(n) => "plugin name must match [A-Za-z_][A-Za-z0-9_-]*: "@
                + n@,
            ConfigError::UnsupportedRunner(r) => "unsupported plugin runner: "@ + r@,
            ConfigError::EmptyCommand => "plugin command must not be empty"@,
            ConfigError::DefaultWithCommand(n) => "default plugin must not set command: "@ + n@,
            ConfigError::PluginPathGlob => "plugin path must not use glob syntax"@,
            ConfigError::PluginPathRepo => "plugin path must not target .repo/"@,
            ConfigError::PluginPathReservedPrefix => "plugin path must not target reserved url prefix"@,
            ConfigError::InvalidDependencyName(d) =>
                "plugin dependency name must match [A-Za-z_][A-Za-z0-9_-]*: "@ + d@,
            ConfigError::SelfDependency(n) => "plugin must not depend on itself: "@ + n@,
            ConfigError::MissingDependency(n, d) => "plugin dependency not found: "@ + n@ + " -> "@
                + d@,
            ConfigError::ManualWithPath => "manual plugin must not set path"@,
            ConfigError::NonManualWithoutPath => "non-manual plugin must set path"@,
            ConfigError::MountSlashes => "plugin mount must start and end with /"@,
            ConfigError::MountReservedPrefix => "plugin mount must not target reserved url prefix"@,
            ConfigError::MountConflict(m) => "plugin mount conflicts with repository directory: "@
                + m@,
            ConfigError::DuplicateMount(m) => "duplicate plugin mount: "@ + m@,
        }
    }

    /// The message reported for the error.
    pub fn message(&self) -> (r: String)
        ensures
            r@ == self.spec_message(),
    {
        match self {
            ConfigError::NameEmpty => String::from_str("name must not be empty"),
            ConfigError::InvalidUrlPrefix(p) => concat(
                p.name(),
                " must start with /, must not be empty, and must not end with /",
            ),
            ConfigError::Path(e) => e.message(),
            ConfigError::DuplicatePrefix(a, b) => {
                let mut s = concat(a.name(), " and ");
                s.append(b.name());
                s.append(" must be different");
                s
            },
            ConfigError::PolicyGlob => String::from_str("policy path must not use glob syntax"),
            ConfigError::PolicyRepo => String::from_str("policy path must not target .repo/"),
            ConfigError::PolicyReservedPrefix => String::from_str(
                "policy path must not target reserved url prefix",
            ),
            ConfigError::IgnoreRoot => String::from_str("ignore path must not target repository root"),
            ConfigError::IgnoreGlob => String::from_str("ignore path must not use glob syntax"),
            ConfigError::IgnoreRepo => String::from_str("ignore path must not target .repo/"),
            ConfigError::IgnoreReservedPrefix => String::from_str(
                "ignore path must not target reserved url prefix",
            ),
            ConfigError::InvalidPluginName(n) => concat(
                "plugin name must match [A-Za-z_][A-Za-z0-9_-]*: ",
                n.as_str(),
            ),
            ConfigError::UnsupportedRunner(r) => concat("unsupported plugin runner: ", r.as_str()),
            ConfigError::EmptyCommand => String::from_str("plugin command must not be empty"),
            ConfigError::DefaultWithCommand(n) => concat(
                "default plugin must not set command: ",
                n.as_str(),
            ),
            ConfigError::PluginPathGlob => String::from_str("plugin path must not use glob syntax"),
            ConfigError::PluginPathRepo => String::from_str("plugin path must not target .repo/"),
            ConfigError::PluginPathReservedPrefix => String::from_str(
                "plugin path must not target reserved url prefix",
            ),
            ConfigError::InvalidDependencyName(d) => concat(
                "plugin dependency name must match [A-Za-z_][A-Za-z0-9_-]*: ",
                d.as_str(),
            ),
            ConfigError::SelfDependency(n) => concat("plugin must not depend on itself: ", n.as_str()),
            ConfigError::MissingDependency(n, d) => {
                let mut s = concat("plugin dependency not found: ", n.as_str());
                s.append(" -> ");
                s.append(d.as_str());
                s
            },
            ConfigError::ManualWithPath => String::from_str("manual plugin must not set path"),
            ConfigError::NonManualWithoutPath => String::from_str("non-manual plugin must set path"),
            ConfigError::MountSlashes => String::from_str("plugin mount must start and end with /"),
            ConfigError::MountReservedPrefix => String::from_str(
                "plugin mount must not target reserved url prefix",
            ),
            ConfigError::MountConflict(m) => concat(
                "plugin mount conflicts with repository directory: ",
                m.as_str(),
            ),
            ConfigError::DuplicateMount(m) => concat("duplicate plugin mount: ", m.as_str()),
        }
    }
}

/// The outcome of the checks on the serving settings: the reserved paths,
/// or the first error in the order url prefixes, reserved paths,
/// duplicates.
pub open spec fn spec_check_serve(s: ServeSettings) -> Result<Seq<Seq<Seq<char>>>, ConfigError> {
    if !url_prefix_ok(s.plugin_url_prefix@) {
        Err(ConfigError::InvalidUrlPrefix(ServePrefix::Plugin))
    } else if !url_prefix_ok(s.policy_url_prefix@) {
        Err(ConfigError::InvalidUrlPrefix(ServePrefix::Policy))
    } else if !url_prefix_ok(s.info_url_prefix@) {
        Err(ConfigError::InvalidUrlPrefix(ServePrefix::Info))
    } else {
        match spec_reserved_paths(s) {
            Err(e) => Err(ConfigError::Path(e)),
            Ok(r) => {
                if s.plugin_url_prefix@ == s.policy_url_prefix@ {
                    Err(ConfigError::DuplicatePrefix(ServePrefix::Plugin, ServePrefix::Policy))
                } else if s.plugin_url_prefix@ == s.info_url_prefix@ {
                    Err(ConfigError::DuplicatePrefix(ServePrefix::Plugin, ServePrefix::Info))
                } else if s.policy_url_prefix@ == s.info_url_prefix@ {
                    Err(ConfigError::DuplicatePrefix(ServePrefix::Policy, ServePrefix::Info))
                } else {
                    Ok(r)
                }
            },
        }
    }
}

/// Serving settings that pass the checks have three well-formed,
/// pairwise different URL prefixes, and reserve the paths they denote.
pub proof fn lemma_accepted_serve_settings(s: ServeSettings)
    requires
        spec_check_serve(s) is Ok,
    ensures
        url_prefix_ok(s.plugin_url_prefix@),
        url_prefix_ok(s.policy_url_prefix@),
        url_prefix_ok(s.info_url_prefix@),
        s.plugin_url_prefix@ != s.policy_url_prefix@,
        s.plugin_url_prefix@ != s.info_url_prefix@,
        s.policy_url_prefix@ != s.info_url_prefix@,
        spec_reserved_paths(s) == Ok::<Seq<Seq<Seq<char>>>, PathError>(spec_check_serve(s)->Ok_0),
{
}

/// Checks the serving settings and returns the reserved paths.
pub fn check_serve_settings(s: &ServeSettings) -> (r: Result<Vec<WorkspacePath>, ConfigError>)
    ensures
        match r {
            Ok(v) => spec_check_serve(*s) == Ok::<Seq<Seq<Seq<char>>>, ConfigError>(path_comps(v@)),
            Err(e) => spec_check_serve(*s) == Err::<Seq<Seq<Seq<char>>>, ConfigError>(e),
        },
{
    if !validate_url_prefix(s.plugin_url_prefix.as_str()) {
        return Err(ConfigError::InvalidUrlPrefix(ServePrefix::Plugin));
    }
    if !validate_url_prefix(s.policy_url_prefix.as_str()) {
        return Err(ConfigError::InvalidUrlPrefix(ServePrefix::Policy));
    }
    if !validate_url_prefix(s.info_url_prefix.as_str()) {
        return Err(ConfigError::InvalidUrlPrefix(ServePrefix::Info));
    }
    let reserved = match reserved_url_prefix_paths(s) {
        Ok(v) => v,
        Err(e) => {
            return Err(ConfigError::Path(e));
        },
    };
    if same_text(s.plugin_url_prefix.as_str(), s.policy_url_prefix.as_str()) {
        return Err(ConfigError::DuplicatePrefix(ServePrefix::Plugin, ServePrefix::Policy));
    }
    if same_text(s.plugin_url_prefix.as_str(), s.info_url_prefix.as_str()) {
        return Err(ConfigError::DuplicatePrefix(ServePrefix::Plugin, ServePrefix::Info));
    }
    if same_text(s.policy_url_prefix.as_str(), s.info_url_prefix.as_str()) {
        return Err(ConfigError::DuplicatePrefix(ServePrefix::Policy, ServePrefix::Info));
    }
    assert(path_comps(reserved@) =~= spec_reserved_paths(*s)->Ok_0);
    Ok(reserved)
}

} // verus!
