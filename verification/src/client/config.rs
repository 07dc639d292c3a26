//! The client's configuration (`.repo/user.toml`) once read: the
//! repositories it proxies, the servers it spawns, and its tasks.
use vstd::prelude::*;

use crate::text::{
    chars_of, decimal_text, entry_keys, int_text, keys_ordered, same_text, signed_text, string_of, texts,
    trim_bounds, trim_ws,
};

verus! {

/// Whether the client starts the repository's server or attaches to a
/// running one.
#[derive(Debug, Clone, Copy, PartialEq, Eq, Structural)]
pub enum RepositoryMode {
    Spawn,
    Attach,
}

/// A setting of a spawned server as written in the configuration; a
/// float keeps the text it is displayed with.
#[derive(Debug)]
pub enum ServerValue {
    Text(String),
    Integer(i64),
    Float(String),
    Boolean(bool),
    /// A date, array or table.
    Composite,
}

/// How to start a repository's server: its settings in key order, then
/// extra arguments.
#[derive(Debug)]
pub struct UserServerConfig {
    pub args: Vec<String>,
    pub values: Vec<(String, ServerValue)>,
}

/// One `[[repository]]` entry.
#[derive(Debug)]
pub struct UserRepositoryConfig {
    pub name: String,
    pub mode: RepositoryMode,
    /// The local port the proxy listens on.
    pub port: u16,
    /// The address of a running server to attach to.
    pub where_: Option<String>,
    /// The identity requests are made as.
    pub as_user: String,
    pub plugin_url_prefix: String,
    pub server: Option<UserServerConfig>,
}

/// One step of a task: run `plugin` on `repository`.
#[derive(Debug)]
pub struct UserTaskStep {
    pub repository: String,
    pub plugin: String,
}

/// A named list of plugin runs.
#[derive(Debug)]
pub struct UserTaskConfig {
    pub name: String,
    pub step: Vec<UserTaskStep>,
}

/// The whole client configuration.
#[derive(Debug)]
pub struct UserConfig {
    pub repository: Vec<UserRepositoryConfig>,
    pub task: Vec<UserTaskConfig>,
}

/// Why the client configuration, or a request on it, was refused.
#[derive(Debug)]
pub enum UserConfigError {
    NoRepositories,
    RepositoryNameEmpty,
    DuplicateRepositoryName(String),
    PortZero(String),
    DuplicatePort(u16),
    AsEmpty,
    WhereWithSpawn(String),
    ServerRequired(String),
    ServerPortRequired(String),
    ServerPortZero(String),
    DuplicateSpawnPort(u16),
    WhereRequired(String),
    WhereEmpty,
    ServerOnlyForSpawn(String),
    TaskNameEmpty,
    DuplicateTaskName(String),
    TaskStepsEmpty(String),
    UnknownRepository(String, String),
    StepPluginEmpty(String),
    RepositoryNotFound(String),
    NoRepositoryEntries,
    ServerConfigRequired,
    NotScalar(String),
}

/// A [`UserConfigError`] with its texts taken by value.
pub enum UserConfigErrorView {
    NoRepositories,
    RepositoryNameEmpty,
    DuplicateRepositoryName(Seq<char>),
    PortZero(Seq<char>),
    DuplicatePort(u16),
    AsEmpty,
    WhereWithSpawn(Seq<char>),
    ServerRequired(Seq<char>),
    ServerPortRequired(Seq<char>),
    ServerPortZero(Seq<char>),
    DuplicateSpawnPort(u16),
    WhereRequired(Seq<char>),
    WhereEmpty,
    ServerOnlyForSpawn(Seq<char>),
    TaskNameEmpty,
    DuplicateTaskName(Seq<char>),
    TaskStepsEmpty(Seq<char>),
    UnknownRepository(Seq<char>, Seq<char>),
    StepPluginEmpty(Seq<char>),
    RepositoryNotFound(Seq<char>),
    NoRepositoryEntries,
    ServerConfigRequired,
    NotScalar(Seq<char>),
}

impl View for UserConfigError {
    type V = UserConfigErrorView;

    open spec fn view(&self) -> UserConfigErrorView {
        match self {
            UserConfigError::NoRepositories => UserConfigErrorView::NoRepositories,
            UserConfigError::RepositoryNameEmpty => UserConfigErrorView::RepositoryNameEmpty,
            UserConfigError::DuplicateRepositoryName(n) => UserConfigErrorView::DuplicateRepositoryName(n@),
            UserConfigError::PortZero(n) => UserConfigErrorView::PortZero(n@),
            UserConfigError::DuplicatePort(p) => UserConfigErrorView::DuplicatePort(*p),
            UserConfigError::AsEmpty => UserConfigErrorView::AsEmpty,
            UserConfigError::WhereWithSpawn(n) => UserConfigErrorView::WhereWithSpawn(n@),
            UserConfigError::ServerRequired(n) => UserConfigErrorView::ServerRequired(n@),
            UserConfigError::ServerPortRequired(n) => UserConfigErrorView::ServerPortRequired(n@),
            UserConfigError::ServerPortZero(n) => UserConfigErrorView::ServerPortZero(n@),
            UserConfigError::DuplicateSpawnPort(p) => UserConfigErrorView::DuplicateSpawnPort(*p),
            UserConfigError::WhereRequired(n) => UserConfigErrorView::WhereRequired(n@),
            UserConfigError::WhereEmpty => UserConfigErrorView::WhereEmpty,
            UserConfigError::ServerOnlyForSpawn(n) => UserConfigErrorView::ServerOnlyForSpawn(n@),
            UserConfigError::TaskNameEmpty => UserConfigErrorView::TaskNameEmpty,
            UserConfigError::DuplicateTaskName(n) => UserConfigErrorView::DuplicateTaskName(n@),
            UserConfigError::TaskStepsEmpty(n) => UserConfigErrorView::TaskStepsEmpty(n@),
            UserConfigError::UnknownRepository(t, r) => UserConfigErrorView::UnknownRepository(t@, r@),
            UserConfigError::StepPluginEmpty(t) => UserConfigErrorView::StepPluginEmpty(t@),
            UserConfigError::RepositoryNotFound(n) => UserConfigErrorView::RepositoryNotFound(n@),
            UserConfigError::NoRepositoryEntries => UserConfigErrorView::NoRepositoryEntries,
            UserConfigError::ServerConfigRequired => UserConfigErrorView::ServerConfigRequired,
            UserConfigError::NotScalar(n) => UserConfigErrorView::NotScalar(n@),
        }
    }
}

impl UserConfigErrorView {
    /// The message reported for the error.
    pub open spec fn message(self) -> Seq<char> {
        match self {
            UserConfigErrorView::NoRepositories =>
                "at least one [[repository]] entry is required in .repo/user.toml"@,
            UserConfigErrorView::RepositoryNameEmpty => "repository.name must not be empty"@,
            UserConfigErrorView::DuplicateRepositoryName(n) =>
                "duplicate repository.name in .repo/user.toml: "@ + n,
            UserConfigErrorView::PortZero(n) => "repository.port must not be zero: "@ + n,
            UserConfigErrorView::DuplicatePort(p) => "duplicate repository.port in .repo/user.toml: "@
                + decimal_text(p as nat),
            UserConfigErrorView::AsEmpty => "repository.as must not be empty"@,
            UserConfigErrorView::WhereWithSpawn(n) =>
                "repository.where must not be set when mode = \"spawn\": "@ + n,
            UserConfigErrorView::ServerRequired(n) =>
                "repository.server is required when mode = \"spawn\": "@ + n,
            UserConfigErrorView::ServerPortRequired(n) =>
                "repository.server.port is required when mode = \"spawn\": "@ + n,
            UserConfigErrorView::ServerPortZero(n) => "repository.server.port must not be zero: "@
                + n,
            UserConfigErrorView::DuplicateSpawnPort(p) =>
                "duplicate spawned server port in .repo/user.toml: "@ + decimal_text(p as nat),
            UserConfigErrorView::WhereRequired(n) =>
                "repository.where is required when mode = \"attach\": "@ + n,
            UserConfigErrorView::WhereEmpty => "repository.where must not be empty"@,
            UserConfigErrorView::ServerOnlyForSpawn(n) =>
                "repository.server is only valid when mode = \"spawn\": "@ + n,
            UserConfigErrorView::TaskNameEmpty => "task.name must not be empty"@,
            UserConfigErrorView::DuplicateTaskName(n) => "duplicate task.name in .repo/user.toml: "@
                + n,
            UserConfigErrorView::TaskStepsEmpty(n) => "task.step must not be empty: "@ + n,
            UserConfigErrorView::UnknownRepository(t, r) =>
                "task references unknown repository in .repo/user.toml: "@ + t + " -> "@ + r,
            UserConfigErrorView::StepPluginEmpty(t) => "task step plugin must not be empty: "@ + t,
            UserConfigErrorView::RepositoryNotFound(n) => "repository not found in .repo/user.toml: "@
                + n,
            UserConfigErrorView::NoRepositoryEntries =>
                "no [[repository]] entries configured in .repo/user.toml"@,
            UserConfigErrorView::ServerConfigRequired =>
                "repository.server is required for mode = \"spawn\""@,
            UserConfigErrorView::NotScalar(n) => "repository.server."@ + n
                + " must be a scalar value"@,
        }
    }
}

/// `a` followed by `b`.
fn cat(a: &str, b: &str) -> (r: String)
    ensures
        r@ == a@ + b@,
{
    let mut s = String::from_str(a);
    s.append(b);
    s
}

impl UserConfigError {
    /// The message reported for the error.
    pub fn message(&self) -> (r: String)
        ensures
            r@ == self@.message(),
    {
        match self {
            UserConfigError::NoRepositories => String::from_str(
                "at least one [[repository]] entry is required in .repo/user.toml",
            ),
            UserConfigError::RepositoryNameEmpty => String::from_str(
                "repository.name must not be empty",
            ),
            UserConfigError::DuplicateRepositoryName(n) => cat(
                "duplicate repository.name in .repo/user.toml: ",
                n.as_str(),
            ),
            UserConfigError::PortZero(n) => cat("repository.port must not be zero: ", n.as_str()),
            UserConfigError::DuplicatePort(p) => {
                let t = crate::text::nat_text(*p as u64);
                cat("duplicate repository.port in .repo/user.toml: ", t.as_str())
            },
            UserConfigError::AsEmpty => String::from_str("repository.as must not be empty"),
            UserConfigError::WhereWithSpawn(n) => cat(
                "repository.where must not be set when mode = \"spawn\": ",
                n.as_str(),
            ),
            UserConfigError::ServerRequired(n) => cat(
                "repository.server is required when mode = \"spawn\": ",
                n.as_str(),
            ),
            UserConfigError::ServerPortRequired(n) => cat(
                "repository.server.port is required when mode = \"spawn\": ",
                n.as_str(),
            ),
            UserConfigError::ServerPortZero(n) => cat(
                "repository.server.port must not be zero: ",
                n.as_str(),
            ),
            UserConfigError::DuplicateSpawnPort(p) => {
                let t = crate::text::nat_text(*p as u64);
                cat("duplicate spawned server port in .repo/user.toml: ", t.as_str())
            },
            UserConfigError::WhereRequired(n) => cat(
                "repository.where is required when mode = \"attach\": ",
                n.as_str(),
            ),
            UserConfigError::WhereEmpty => String::from_str("repository.where must not be empty"),
            UserConfigError::ServerOnlyForSpawn(n) => cat(
                "repository.server is only valid when mode = \"spawn\": ",
                n.as_str(),
            ),
            UserConfigError::TaskNameEmpty => String::from_str("task.name must not be empty"),
            UserConfigError::DuplicateTaskName(n) => cat(
                "duplicate task.name in .repo/user.toml: ",
                n.as_str(),
            ),
            UserConfigError::TaskStepsEmpty(n) => cat("task.step must not be empty: ", n.as_str()),
            UserConfigError::UnknownRepository(t, r) => {
                let mut s = cat(
                    "task references unknown repository in .repo/user.toml: ",
                    t.as_str(),
                );
                s.append(" -> ");
                s.append(r.as_str());
                s
            },
            UserConfigError::StepPluginEmpty(t) => cat(
                "task step plugin must not be empty: ",
                t.as_str(),
            ),
            UserConfigError::RepositoryNotFound(n) => cat(
                "repository not found in .repo/user.toml: ",
                n.as_str(),
            ),
            UserConfigError::NoRepositoryEntries => String::from_str(
                "no [[repository]] entries configured in .repo/user.toml",
            ),
            UserConfigError::ServerConfigRequired => String::from_str(
                "repository.server is required for mode = \"spawn\"",
            ),
            UserConfigError::NotScalar(n) => {
                let mut s = cat("repository.server.", n.as_str());
                s.append(" must be a scalar value");
                s
            },
        }
    }
}

/// Whether `s` is empty once surrounding whitespace is removed.
pub open spec fn blank(s: Seq<char>) -> bool {
    trim_ws(s).len() == 0
}

/// Whether `s` is empty once surrounding whitespace is removed.
pub fn is_blank(s: &str) -> (r: bool)
    ensures
        r == blank(s@),
{
    let v = chars_of(s);
    let (a, b) = trim_bounds(&v, 0, v.len());
    assert(v@.subrange(0, v@.len() as int) =~= s@);
    a == b
}

/// The port a server setting list names: the first `port` entry, when it
/// is an integer that fits a port.
pub open spec fn spec_server_port(values: Seq<(String, ServerValue)>) -> Option<u16>
    decreases values.len(),
{
    if values.len() == 0 {
        None
    } else if values[0].0@ == "port"@ {
        match values[0].1 {
            ServerValue::Integer(n) => if 0 <= n <= 65535 {
                Some(n as u16)
            } else {
                None
            },
            _ => None,
        }
    } else {
        spec_server_port(values.drop_first())
    }
}

/// The port of a spawned server's settings, as configured.
pub open spec fn server_port_of(s: Option<UserServerConfig>) -> Option<u16> {
    match s {
        Some(c) => spec_server_port(c.values@),
        None => None,
    }
}

/// The error repository `i` raises, the repositories before it having
/// passed.
pub open spec fn repository_error(rs: Seq<UserRepositoryConfig>, i: int) -> Option<UserConfigErrorView> {
    let r = rs[i];
    if blank(r.name@) {
        Some(UserConfigErrorView::RepositoryNameEmpty)
    } else if exists|j: int| 0 <= j < i && (#[trigger] rs[j]).name@ == r.name@ {
        Some(UserConfigErrorView::DuplicateRepositoryName(r.name@))
    } else if r.port == 0 {
        Some(UserConfigErrorView::PortZero(r.name@))
    } else if exists|j: int| 0 <= j < i && (#[trigger] rs[j]).port == r.port {
        Some(UserConfigErrorView::DuplicatePort(r.port))
    } else if blank(r.as_user@) {
        Some(UserConfigErrorView::AsEmpty)
    } else {
        match r.mode {
            RepositoryMode::Spawn => if r.where_ is Some {
                Some(UserConfigErrorView::WhereWithSpawn(r.name@))
            } else if r.server is None {
                Some(UserConfigErrorView::ServerRequired(r.name@))
            } else {
                match server_port_of(r.server) {
                    None => Some(UserConfigErrorView::ServerPortRequired(r.name@)),
                    Some(p) => if p == 0 {
                        Some(UserConfigErrorView::ServerPortZero(r.name@))
                    } else if exists|j: int|
                        0 <= j < i && (#[trigger] rs[j]).mode == RepositoryMode::Spawn
                            && server_port_of(rs[j].server) == Some(p) {
                        Some(UserConfigErrorView::DuplicateSpawnPort(p))
                    } else {
                        None
                    },
                }
            },
            RepositoryMode::Attach => match r.where_ {
                None => Some(UserConfigErrorView::WhereRequired(r.name@)),
                Some(w) => if blank(w@) {
                    Some(UserConfigErrorView::WhereEmpty)
                } else if r.server is Some {
                    Some(UserConfigErrorView::ServerOnlyForSpawn(r.name@))
                } else {
                    None
                },
            },
        }
    }
}

/// The error step `k` of task `t` raises.
pub open spec fn step_error(rs: Seq<UserRepositoryConfig>, t: UserTaskConfig, k: int) -> Option<
    UserConfigErrorView,
> {
    let s = t.step@[k];
    if forall|j: int| 0 <= j < rs.len() ==> (#[trigger] rs[j]).name@ != s.repository@ {
        Some(UserConfigErrorView::UnknownRepository(t.name@, s.repository@))
    } else if blank(s.plugin@) {
        Some(UserConfigErrorView::StepPluginEmpty(t.name@))
    } else {
        None
    }
}

/// The first error among the steps `k..` of task `t`.
pub open spec fn first_step_error(rs: Seq<UserRepositoryConfig>, t: UserTaskConfig, k: int) -> Option<
    UserConfigErrorView,
>
    decreases t.step@.len() - k,
{
    if k < 0 || k >= t.step@.len() {
        None
    } else {
        match step_error(rs, t, k) {
            Some(e) => Some(e),
            None => first_step_error(rs, t, k + 1),
        }
    }
}

/// The error task `i` raises, the tasks before it having passed.
pub open spec fn task_error(rs: Seq<UserRepositoryConfig>, ts: Seq<UserTaskConfig>, i: int) -> Option<
    UserConfigErrorView,
> {
    let t = ts[i];
    if blank(t.name@) {
        Some(UserConfigErrorView::TaskNameEmpty)
    } else if exists|j: int| 0 <= j < i && (#[trigger] ts[j]).name@ == t.name@ {
        Some(UserConfigErrorView::DuplicateTaskName(t.name@))
    } else if t.step@.len() == 0 {
        Some(UserConfigErrorView::TaskStepsEmpty(t.name@))
    } else {
        first_step_error(rs, t, 0)
    }
}

/// The first error among the repositories from `i` on.
pub open spec fn first_repository_error(rs: Seq<UserRepositoryConfig>, i: int) -> Option<
    UserConfigErrorView,
>
    decreases rs.len() - i,
{
    if i < 0 || i >= rs.len() {
        None
    } else {
        match repository_error(rs, i) {
            Some(e) => Some(e),
            None => first_repository_error(rs, i + 1),
        }
    }
}

/// The first error among the tasks from `i` on.
pub open spec fn first_task_error(rs: Seq<UserRepositoryConfig>, ts: Seq<UserTaskConfig>, i: int) -> Option<
    UserConfigErrorView,
>
    decreases ts.len() - i,
{
    if i < 0 || i >= ts.len() {
        None
    } else {
        match task_error(rs, ts, i) {
            Some(e) => Some(e),
            None => first_task_error(rs, ts, i + 1),
        }
    }
}

/// The outcome of validating `c`.
pub open spec fn spec_validate(c: UserConfig) -> Option<UserConfigErrorView> {
    if c.repository@.len() == 0 {
        Some(UserConfigErrorView::NoRepositories)
    } else {
        match first_repository_error(c.repository@, 0) {
            Some(e) => Some(e),
            None => first_task_error(c.repository@, c.task@, 0),
        }
    }
}

/// No repository from `i` on raises an error when none is the first.
proof fn lemma_no_repository_error(rs: Seq<UserRepositoryConfig>, i: int)
    requires
        0 <= i,
        first_repository_error(rs, i) is None,
    ensures
        forall|k: int| i <= k < rs.len() ==> repository_error(rs, k) is None,
    decreases rs.len() - i,
{
    if i < rs.len() {
        lemma_no_repository_error(rs, i + 1);
    }
}

/// A configuration the client accepts has at least one repository; the
/// repositories have distinct names and distinct non-zero ports; each
/// spawned one has a non-zero server port, distinct among spawned ones,
/// and each attached one has an address.
pub proof fn lemma_accepted_user_config(c: UserConfig)
    requires
        spec_validate(c) is None,
    ensures
        c.repository@.len() > 0,
        forall|a: int, b: int|
            0 <= a < b < c.repository@.len() ==> (#[trigger] c.repository@[a]).name@
                != (#[trigger] c.repository@[b]).name@ && c.repository@[a].port
                != c.repository@[b].port,
        forall|k: int| 0 <= k < c.repository@.len() ==> (#[trigger] c.repository@[k]).port != 0,
        forall|k: int|
            0 <= k < c.repository@.len() && (#[trigger] c.repository@[k]).mode
                == RepositoryMode::Spawn ==> (server_port_of(c.repository@[k].server) matches Some(p)
                && p != 0),
        forall|k: int|
            0 <= k < c.repository@.len() && (#[trigger] c.repository@[k]).mode
                == RepositoryMode::Attach ==> c.repository@[k].where_ is Some,
        forall|a: int, b: int|
            0 <= a < b < c.repository@.len() && (#[trigger] c.repository@[a]).mode
                == RepositoryMode::Spawn && (#[trigger] c.repository@[b]).mode == RepositoryMode::Spawn
                ==> server_port_of(c.repository@[a].server) != server_port_of(
                c.repository@[b].server,
            ),
{
    let rs = c.repository@;
    lemma_no_repository_error(rs, 0);
    assert forall|a: int, b: int| 0 <= a < b < rs.len() implies (#[trigger] rs[a]).name@
        != (#[trigger] rs[b]).name@ && rs[a].port != rs[b].port by {
        assert(repository_error(rs, b) is None);
    }
    assert forall|k: int| 0 <= k < rs.len() implies (#[trigger] rs[k]).port != 0 by {
        assert(repository_error(rs, k) is None);
    }
    assert forall|k: int|
        0 <= k < rs.len() && (#[trigger] rs[k]).mode == RepositoryMode::Spawn implies (server_port_of(
        rs[k].server,
    ) matches Some(p) && p != 0) by {
        assert(repository_error(rs, k) is None);
    }
    assert forall|k: int|
        0 <= k < rs.len() && (#[trigger] rs[k]).mode == RepositoryMode::Attach implies rs[k].where_ is Some by {
        assert(repository_error(rs, k) is None);
    }
    assert forall|a: int, b: int|
        0 <= a < b < rs.len() && (#[trigger] rs[a]).mode == RepositoryMode::Spawn && (
        #[trigger] rs[b]).mode == RepositoryMode::Spawn implies server_port_of(rs[a].server)
        != server_port_of(rs[b].server) by {
        assert(repository_error(rs, a) is None);
        assert(repository_error(rs, b) is None);
    }
}

/// In an accepted configuration a spawned repository has settings for its
/// server and no address, and an attached one has no server settings.
pub proof fn lemma_accepted_modes(c: UserConfig)
    requires
        spec_validate(c) is None,
    ensures
        forall|k: int|
            0 <= k < c.repository@.len() && (#[trigger] c.repository@[k]).mode
                == RepositoryMode::Spawn ==> c.repository@[k].where_ is None
                && c.repository@[k].server is Some,
        forall|k: int|
            0 <= k < c.repository@.len() && (#[trigger] c.repository@[k]).mode
                == RepositoryMode::Attach ==> c.repository@[k].server is None,
{
    let rs = c.repository@;
    lemma_no_repository_error(rs, 0);
    assert forall|k: int|
        0 <= k < rs.len() && (#[trigger] rs[k]).mode == RepositoryMode::Spawn implies rs[k].where_ is None
        && rs[k].server is Some by {
        assert(repository_error(rs, k) is None);
    }
    assert forall|k: int|
        0 <= k < rs.len() && (#[trigger] rs[k]).mode == RepositoryMode::Attach implies rs[k].server is None by {
        assert(repository_error(rs, k) is None);
    }
}

/// No step from `k` on raises an error when none is the first.
proof fn lemma_no_step_error(rs: Seq<UserRepositoryConfig>, t: UserTaskConfig, k: int)
    requires
        0 <= k,
        first_step_error(rs, t, k) is None,
    ensures
        forall|m: int| k <= m < t.step@.len() ==> step_error(rs, t, m) is None,
    decreases t.step@.len() - k,
{
    if k < t.step@.len() {
        lemma_no_step_error(rs, t, k + 1);
    }
}

/// No task from `i` on raises an error when none is the first.
proof fn lemma_no_task_error(rs: Seq<UserRepositoryConfig>, ts: Seq<UserTaskConfig>, i: int)
    requires
        0 <= i,
        first_task_error(rs, ts, i) is None,
    ensures
        forall|k: int| i <= k < ts.len() ==> task_error(rs, ts, k) is None,
    decreases ts.len() - i,
{
    if i < ts.len() {
        lemma_no_task_error(rs, ts, i + 1);
    }
}

/// In an accepted configuration the tasks have distinct names and at
/// least one step each, and every step names a configured repository.
pub proof fn lemma_accepted_tasks(c: UserConfig)
    requires
        spec_validate(c) is None,
    ensures
        forall|a: int, b: int|
            0 <= a < b < c.task@.len() ==> (#[trigger] c.task@[a]).name@ != (#[trigger] c.task@[b]).name@,
        forall|k: int| 0 <= k < c.task@.len() ==> (#[trigger] c.task@[k]).step@.len() > 0,
        forall|k: int, m: int|
            0 <= k < c.task@.len() && 0 <= m < c.task@[k].step@.len() ==> exists|j: int|
                0 <= j < c.repository@.len() && c.repository@[j].name@
                    == (#[trigger] c.task@[k].step@[m]).repository@,
{
    let rs = c.repository@;
    let ts = c.task@;
    lemma_no_task_error(rs, ts, 0);
    assert forall|a: int, b: int| 0 <= a < b < ts.len() implies (#[trigger] ts[a]).name@
        != (#[trigger] ts[b]).name@ by {
        assert(task_error(rs, ts, b) is None);
    }
    assert forall|k: int| 0 <= k < ts.len() implies (#[trigger] ts[k]).step@.len() > 0 by {
        assert(task_error(rs, ts, k) is None);
    }
    assert forall|k: int, m: int|
        0 <= k < ts.len() && 0 <= m < ts[k].step@.len() implies exists|j: int|
        0 <= j < rs.len() && rs[j].name@ == (#[trigger] ts[k].step@[m]).repository@ by {
        assert(task_error(rs, ts, k) is None);
        lemma_no_step_error(rs, ts[k], 0);
        assert(step_error(rs, ts[k], m) is None);
    }
}

impl UserServerConfig {
    /// Well-formed: each setting name once, in ascending character order,
    /// as the settings table holds them.
    pub open spec fn wf(&self) -> bool {
        keys_ordered(entry_keys(self.values@))
    }

    /// The text of the setting `name`, when it is set to text.
    pub fn text_value(&self, name: &str) -> (r: Option<&str>)
        ensures
            match r {
                Some(t) => spec_text_setting(self.values@, name@) == Some(t@),
                None => spec_text_setting(self.values@, name@) is None,
            },
    {
        let mut i: usize = 0;
        assert(self.values@.skip(0) =~= self.values@);
        while i < self.values.len()
            invariant
                i <= self.values@.len(),
                spec_text_setting(self.values@, name@) == spec_text_setting(
                    self.values@.skip(i as int),
                    name@,
                ),
            decreases self.values@.len() - i,
        {
            let ghost rest = self.values@.skip(i as int);
            assert(rest.drop_first() =~= self.values@.skip(i + 1));
            if same_text(self.values[i].0.as_str(), name) {
                return match &self.values[i].1 {
                    ServerValue::Text(t) => Some(t.as_str()),
                    _ => None,
                };
            }
            i = i + 1;
        }
        None
    }

    /// The configured port of the server, if it is an integer that fits.
    pub fn port(&self) -> (r: Option<u16>)
        ensures
            r == spec_server_port(self.values@),
    {
        let mut i: usize = 0;
        assert(self.values@.skip(0) =~= self.values@);
        while i < self.values.len()
            invariant
                i <= self.values@.len(),
                spec_server_port(self.values@) == spec_server_port(self.values@.skip(i as int)),
            decreases self.values@.len() - i,
        {
            let ghost rest = self.values@.skip(i as int);
            assert(rest.drop_first() =~= self.values@.skip(i + 1));
            if same_text(self.values[i].0.as_str(), "port") {
                return match &self.values[i].1 {
                    ServerValue::Integer(n) => if 0 <= *n && *n <= 65535 {
                        Some(*n as u16)
                    } else {
                        None
                    },
                    _ => None,
                };
            }
            i = i + 1;
        }
        None
    }
}

impl UserConfig {
    /// Checks the configuration rules; the first broken one is reported.
    pub fn validate(&self) -> (r: Result<(), UserConfigError>)
        ensures
            match r {
                Ok(()) => spec_validate(*self) is None,
                Err(e) => spec_validate(*self) == Some(e@),
            },
    {
        if self.repository.len() == 0 {
            return Err(UserConfigError::NoRepositories);
        }
        let mut i: usize = 0;
        while i < self.repository.len()
            invariant
                i <= self.repository@.len(),
                self.repository@.len() > 0,
                first_repository_error(self.repository@, 0) == first_repository_error(
                    self.repository@,
                    i as int,
                ),
            decreases self.repository@.len() - i,
        {
            match self.check_repository(i) {
                Some(e) => {
                    return Err(e);
                },
                None => {},
            }
            i = i + 1;
        }
        let mut t: usize = 0;
        while t < self.task.len()
            invariant
                t <= self.task@.len(),
                self.repository@.len() > 0,
                first_repository_error(self.repository@, 0) is None,
                first_task_error(self.repository@, self.task@, 0) == first_task_error(
                    self.repository@,
                    self.task@,
                    t as int,
                ),
            decreases self.task@.len() - t,
        {
            match self.check_task(t) {
                Some(e) => {
                    return Err(e);
                },
                None => {},
            }
            t = t + 1;
        }
        Ok(())
    }

    /// The error repository `i` raises, if any.
    #[verifier::loop_isolation(false)]
    fn check_repository(&self, i: usize) -> (r: Option<UserConfigError>)
        requires
            i < self.repository@.len(),
        ensures
            match r {
                None => repository_error(self.repository@, i as int) is None,
                Some(e) => repository_error(self.repository@, i as int) == Some(e@),
            },
    {
        let rs = &self.repository;
        let r = &rs[i];
        if is_blank(r.name.as_str()) {
            return Some(UserConfigError::RepositoryNameEmpty);
        }
        let mut j: usize = 0;
        while j < i
            invariant
                i < rs@.len(),
                *rs == self.repository,
                *r == rs@[i as int],
                j <= i,
                forall|k: int| 0 <= k < j ==> (#[trigger] rs@[k]).name@ != r.name@,
            decreases i - j,
        {
            if same_text(rs[j].name.as_str(), r.name.as_str()) {
                assert((rs@[j as int]).name@ == r.name@);
                return Some(UserConfigError::DuplicateRepositoryName(r.name.clone()));
            }
            j = j + 1;
        }
        if r.port == 0 {
            return Some(UserConfigError::PortZero(r.name.clone()));
        }
        let mut j: usize = 0;
        while j < i
            invariant
                i < rs@.len(),
                *rs == self.repository,
                *r == rs@[i as int],
                j <= i,
                forall|k: int| 0 <= k < j ==> (#[trigger] rs@[k]).port != r.port,
            decreases i - j,
        {
            if rs[j].port == r.port {
                assert((rs@[j as int]).port == r.port);
                return Some(UserConfigError::DuplicatePort(r.port));
            }
            j = j + 1;
        }
        if is_blank(r.as_user.as_str()) {
            return Some(UserConfigError::AsEmpty);
        }
        match r.mode {
            RepositoryMode::Spawn => {
                if r.where_.is_some() {
                    return Some(UserConfigError::WhereWithSpawn(r.name.clone()));
                }
                let server = match &r.server {
                    None => {
                        return Some(UserConfigError::ServerRequired(r.name.clone()));
                    },
                    Some(s) => s,
                };
                let port = match server.port() {
                    None => {
                        return Some(UserConfigError::ServerPortRequired(r.name.clone()));
                    },
                    Some(p) => p,
                };
                if port == 0 {
                    return Some(UserConfigError::ServerPortZero(r.name.clone()));
                }
                let mut j: usize = 0;
                while j < i
                    invariant
                        i < rs@.len(),
                        *rs == self.repository,
                        *r == rs@[i as int],
                        j <= i,
                        forall|k: int|
                            0 <= k < j ==> !((#[trigger] rs@[k]).mode == RepositoryMode::Spawn
                                && server_port_of(rs@[k].server) == Some(port)),
                    decreases i - j,
                {
                    if rs[j].mode == RepositoryMode::Spawn {
                        let other = match &rs[j].server {
                            Some(s) => s.port(),
                            None => None,
                        };
                        if other == Some(port) {
                            assert((rs@[j as int]).mode == RepositoryMode::Spawn && server_port_of(
                                rs@[j as int].server,
                            ) == Some(port));
                            return Some(UserConfigError::DuplicateSpawnPort(port));
                        }
                    }
                    j = j + 1;
                }
                None
            },
            RepositoryMode::Attach => {
                match &r.where_ {
                    None => Some(UserConfigError::WhereRequired(r.name.clone())),
                    Some(w) => {
                        if is_blank(w.as_str()) {
                            Some(UserConfigError::WhereEmpty)
                        } else if r.server.is_some() {
                            Some(UserConfigError::ServerOnlyForSpawn(r.name.clone()))
                        } else {
                            None
                        }
                    },
                }
            },
        }
    }

    /// The error task `t` raises, if any.
    #[verifier::loop_isolation(false)]
    fn check_task(&self, t: usize) -> (r: Option<UserConfigError>)
        requires
            t < self.task@.len(),
        ensures
            match r {
                None => task_error(self.repository@, self.task@, t as int) is None,
                Some(e) => task_error(self.repository@, self.task@, t as int) == Some(e@),
            },
    {
        let ts = &self.task;
        let task = &ts[t];
        if is_blank(task.name.as_str()) {
            return Some(UserConfigError::TaskNameEmpty);
        }
        let mut j: usize = 0;
        while j < t
            invariant
                t < ts@.len(),
                *ts == self.task,
                *task == ts@[t as int],
                j <= t,
                forall|k: int| 0 <= k < j ==> (#[trigger] ts@[k]).name@ != task.name@,
            decreases t - j,
        {
            if same_text(ts[j].name.as_str(), task.name.as_str()) {
                assert((ts@[j as int]).name@ == task.name@);
                return Some(UserConfigError::DuplicateTaskName(task.name.clone()));
            }
            j = j + 1;
        }
        if task.step.len() == 0 {
            return Some(UserConfigError::TaskStepsEmpty(task.name.clone()));
        }
        let mut k: usize = 0;
        while k < task.step.len()
            invariant
                *task == self.task@[t as int],
                k <= task.step@.len(),
                first_step_error(self.repository@, *task, 0) == first_step_error(
                    self.repository@,
                    *task,
                    k as int,
                ),
            decreases task.step@.len() - k,
        {
            let step = &task.step[k];
            match self.find_repository_index(step.repository.as_str()) {
                None => {
                    return Some(
                        UserConfigError::UnknownRepository(task.name.clone(), step.repository.clone()),
                    );
                },
                Some(_) => {},
            }
            if is_blank(step.plugin.as_str()) {
                return Some(UserConfigError::StepPluginEmpty(task.name.clone()));
            }
            k = k + 1;
        }
        None
    }

    /// The index of the first repository called `name`.
    pub fn find_repository_index(&self, name: &str) -> (r: Option<usize>)
        ensures
            match r {
                Some(k) => k < self.repository@.len() && self.repository@[k as int].name@ == name@
                    && forall|j: int| 0 <= j < k ==> self.repository@[j].name@ != name@,
                None => forall|j: int|
                    0 <= j < self.repository@.len() ==> (#[trigger] self.repository@[j]).name@
                        != name@,
            },
    {
        let mut i: usize = 0;
        while i < self.repository.len()
            invariant
                i <= self.repository@.len(),
                forall|k: int| 0 <= k < i ==> (#[trigger] self.repository@[k]).name@ != name@,
            decreases self.repository@.len() - i,
        {
            if same_text(self.repository[i].name.as_str(), name) {
                return Some(i);
            }
            i = i + 1;
        }
        None
    }

    /// The first repository called `name`.
    pub fn find_repository(&self, name: &str) -> (r: Option<&UserRepositoryConfig>)
        ensures
            match r {
                Some(p) => exists|i: int|
                    0 <= i < self.repository@.len() && self.repository@[i] == *p && p.name@ == name@
                        && forall|k: int| 0 <= k < i ==> self.repository@[k].name@ != name@,
                None => forall|k: int|
                    0 <= k < self.repository@.len() ==> self.repository@[k].name@ != name@,
            },
    {
        match self.find_repository_index(name) {
            Some(k) => Some(&self.repository[k]),
            None => None,
        }
    }

    /// The repositories to start: the one called `selected_name` when one
    /// is named, otherwise all of them (at least one is needed).
    pub fn repositories_to_start(&self, selected_name: Option<&str>) -> (r: Result<
        Vec<usize>,
        UserConfigError,
    >)
        ensures
            match selected_name {
                Some(n) => match r {
                    Ok(v) => v@.len() == 1 && v@[0] < self.repository@.len()
                        && self.repository@[v@[0] as int].name@ == n@ && forall|j: int|
                        0 <= j < v@[0] ==> self.repository@[j].name@ != n@,
                    Err(e) => e@ == UserConfigErrorView::RepositoryNotFound(n@) && forall|j: int|
                        0 <= j < self.repository@.len() ==> self.repository@[j].name@ != n@,
                },
                None => match r {
                    Ok(v) => self.repository@.len() > 0 && v@.len() == self.repository@.len()
                        && forall|j: int| 0 <= j < v@.len() ==> v@[j] == j,
                    Err(e) => self.repository@.len() == 0 && e@
                        == UserConfigErrorView::NoRepositoryEntries,
                },
            },
    {
        match selected_name {
            Some(name) => {
                match self.find_repository_index(name) {
                    Some(k) => {
                        let mut v: Vec<usize> = Vec::new();
                        v.push(k);
                        Ok(v)
                    },
                    None => Err(UserConfigError::RepositoryNotFound(String::from_str(name))),
                }
            },
            None => {
                if self.repository.len() == 0 {
                    return Err(UserConfigError::NoRepositoryEntries);
                }
                let mut v: Vec<usize> = Vec::new();
                let mut i: usize = 0;
                while i < self.repository.len()
                    invariant
                        i <= self.repository@.len(),
                        v@.len() == i,
                        forall|j: int| 0 <= j < i ==> v@[j] == j,
                    decreases self.repository@.len() - i,
                {
                    v.push(i);
                    i = i + 1;
                }
                Ok(v)
            },
        }
    }

    /// The first task called `name`.
    pub fn find_task(&self, name: &str) -> (r: Option<&UserTaskConfig>)
        ensures
            match r {
                Some(t) => exists|i: int|
                    0 <= i < self.task@.len() && self.task@[i] == *t && t.name@ == name@ && forall|
                        k: int,
                    | 0 <= k < i ==> self.task@[k].name@ != name@,
                None => forall|k: int| 0 <= k < self.task@.len() ==> self.task@[k].name@ != name@,
            },
    {
        let mut i: usize = 0;
        while i < self.task.len()
            invariant
                i <= self.task@.len(),
                forall|k: int| 0 <= k < i ==> self.task@[k].name@ != name@,
            decreases self.task@.len() - i,
        {
            if same_text(self.task[i].name.as_str(), name) {
                return Some(&self.task[i]);
            }
            i = i + 1;
        }
        None
    }
}

impl UserRepositoryConfig {
    /// The settings of the spawned server, which `spawn` mode requires.
    pub fn server_config(&self) -> (r: Result<&UserServerConfig, UserConfigError>)
        ensures
            match r {
                Ok(s) => self.server == Some(*s),
                Err(e) => self.server is None && e@ == UserConfigErrorView::ServerConfigRequired,
            },
    {
        match &self.server {
            Some(s) => Ok(s),
            None => Err(UserConfigError::ServerConfigRequired),
        }
    }

    /// The plugin URL prefix of the repository's server: for `spawn` the
    /// spawned server's `plugin_url_prefix` setting, or the default when it
    /// sets none; for `attach` the repository's own `plugin_url_prefix`.
    pub fn upstream_plugin_url_prefix(&self) -> (r: &str)
        ensures
            r@ == spec_upstream_plugin_url_prefix(*self),
    {
        match self.mode {
            RepositoryMode::Attach => self.plugin_url_prefix.as_str(),
            RepositoryMode::Spawn => {
                proof {
                    reveal_strlit("/.plugin");
                }
                match &self.server {
                    Some(s) => match s.text_value("plugin_url_prefix") {
                        Some(t) => t,
                        None => "/.plugin",
                    },
                    None => "/.plugin",
                }
            },
        }
    }
}

/// The text of the first setting named `name`, when that setting is text.
pub open spec fn spec_text_setting(values: Seq<(String, ServerValue)>, name: Seq<char>) -> Option<
    Seq<char>,
>
    decreases values.len(),
{
    if values.len() == 0 {
        None
    } else if values[0].0@ == name {
        match values[0].1 {
            ServerValue::Text(t) => Some(t@),
            _ => None,
        }
    } else {
        spec_text_setting(values.drop_first(), name)
    }
}

/// The plugin prefix that requests for a repository are sent under: the
/// spawned server's `plugin_url_prefix` setting (`/.plugin` when it sets
/// none) in `spawn` mode, the repository's `plugin_url_prefix` in `attach`
/// mode.
pub open spec fn spec_upstream_plugin_url_prefix(r: UserRepositoryConfig) -> Seq<char> {
    match r.mode {
        RepositoryMode::Attach => r.plugin_url_prefix@,
        RepositoryMode::Spawn => match r.server {
            Some(s) => match spec_text_setting(s.values@, "plugin_url_prefix"@) {
                Some(t) => t,
                None => "/.plugin"@,
            },
            None => "/.plugin"@,
        },
    }
}

/// The prefix used when a repository does not configure one.
pub fn default_plugin_url_prefix() -> (r: String)
    ensures
        r@ == "/.plugin"@,
{
    String::from_str("/.plugin")
}

/// The text of a scalar server setting, or `must be a scalar value`.
pub open spec fn spec_scalar_value(name: Seq<char>, value: ServerValue) -> Result<Seq<char>, UserConfigErrorView> {
    match value {
        ServerValue::Text(t) => Ok(t@),
        ServerValue::Integer(n) => Ok(signed_text(n as int)),
        ServerValue::Float(t) => Ok(t@),
        ServerValue::Boolean(b) => Ok(
            if b {
                "true"@
            } else {
                "false"@
            },
        ),
        ServerValue::Composite => Err(UserConfigErrorView::NotScalar(name)),
    }
}

/// The text of a scalar server setting.
pub fn scalar_value(name: &str, value: &ServerValue) -> (r: Result<String, UserConfigError>)
    ensures
        match r {
            Ok(t) => spec_scalar_value(name@, *value) == Ok::<Seq<char>, UserConfigErrorView>(t@),
            Err(e) => spec_scalar_value(name@, *value) == Err::<Seq<char>, UserConfigErrorView>(e@),
        },
{
    match value {
        ServerValue::Text(t) => Ok(t.clone()),
        ServerValue::Integer(n) => Ok(int_text(*n)),
        ServerValue::Float(t) => Ok(t.clone()),
        ServerValue::Boolean(b) => Ok(
            if *b {
                String::from_str("true")
            } else {
                String::from_str("false")
            },
        ),
        ServerValue::Composite => Err(UserConfigError::NotScalar(String::from_str(name))),
    }
}

/// The setting name as a command-line flag name: `_` becomes `-`.
pub open spec fn flag_name(name: Seq<char>) -> Seq<char> {
    name.map_values(|c: char| if c == '_' {
        '-'
    } else {
        c
    })
}

/// The command-line arguments of the settings `values[i..]`, or the
/// first setting that is no scalar.
pub open spec fn setting_args(values: Seq<(String, ServerValue)>, i: int) -> Result<
    Seq<Seq<char>>,
    UserConfigErrorView,
>
    decreases values.len() - i,
{
    if i < 0 || i >= values.len() {
        Ok(Seq::empty())
    } else {
        match spec_scalar_value(values[i].0@, values[i].1) {
            Err(e) => Err(e),
            Ok(t) => match setting_args(values, i + 1) {
                Err(e) => Err(e),
                Ok(rest) => Ok(seq!["--"@ + flag_name(values[i].0@) + "="@ + t] + rest),
            },
        }
    }
}

impl UserServerConfig {
    /// The arguments that pass these settings to a server: one
    /// `--name=value` per setting, in key order, then the extra arguments.
    pub fn cli_args(&self) -> (r: Result<Vec<String>, UserConfigError>)
        requires
            self.wf(),
        ensures
            match r {
                Ok(v) => setting_args(self.values@, 0) matches Ok(flags) && texts(v@) == flags
                    + texts(self.args@),
                Err(e) => setting_args(self.values@, 0) == Err::<
                    Seq<Seq<char>>,
                    UserConfigErrorView,
                >(e@),
            },
    {
        let mut out: Vec<String> = Vec::new();
        let mut i: usize = 0;
        assert(texts(out@) =~= Seq::<Seq<char>>::empty());
        while i < self.values.len()
            invariant
                i <= self.values@.len(),
                setting_args(self.values@, 0) == match setting_args(self.values@, i as int) {
                    Err(e) => Err(e),
                    Ok(rest) => Ok(texts(out@) + rest),
                },
            decreases self.values@.len() - i,
        {
            let name = &self.values[i].0;
            let value = match scalar_value(name.as_str(), &self.values[i].1) {
                Ok(t) => t,
                Err(e) => {
                    return Err(e);
                },
            };
            let nv = chars_of(name.as_str());
            let mut flag: Vec<char> = Vec::new();
            flag.push('-');
            flag.push('-');
            let mut k: usize = 0;
            while k < nv.len()
                invariant
                    k <= nv@.len(),
                    nv@ == name@,
                    flag@ == seq!['-', '-'] + flag_name(name@.subrange(0, k as int)),
                decreases nv@.len() - k,
            {
                let c = if nv[k] == '_' {
                    '-'
                } else {
                    nv[k]
                };
                flag.push(c);
                assert(flag_name(name@.subrange(0, k + 1)) =~= flag_name(
                    name@.subrange(0, k as int),
                ).push(c));
                k = k + 1;
            }
            assert(name@.subrange(0, nv@.len() as int) =~= name@);
            flag.push('=');
            crate::text::extend_chars(&mut flag, value.as_str());
            let arg = string_of(&flag);
            proof {
                reveal_strlit("--");
                reveal_strlit("=");
                assert(arg@ =~= "--"@ + flag_name(name@) + "="@ + value@);
            }
            let ghost before = out@;
            out.push(arg);
            proof {
                crate::text::lemma_texts_push(before, arg);
                match setting_args(self.values@, i + 1) {
                    Err(e) => {},
                    Ok(rest) => {
                        assert(texts(before) + (seq![arg@] + rest) =~= texts(out@) + rest);
                    },
                }
            }
            i = i + 1;
        }
        let ghost flags = texts(out@);
        let mut k: usize = 0;
        while k < self.args.len()
            invariant
                k <= self.args@.len(),
                texts(out@) == flags + texts(self.args@).subrange(0, k as int),
            decreases self.args@.len() - k,
        {
            let ghost before = out@;
            out.push(self.args[k].clone());
            proof {
                crate::text::lemma_texts_push(before, self.args@[k as int]);
                assert(texts(self.args@).subrange(0, k + 1) =~= texts(self.args@).subrange(
                    0,
                    k as int,
                ).push(self.args@[k as int]@));
            }
            k = k + 1;
        }
        assert(texts(self.args@).subrange(0, self.args@.len() as int) =~= texts(self.args@));
        assert(flags =~= flags + Seq::<Seq<char>>::empty());
        Ok(out)
    }
}

} // verus!
