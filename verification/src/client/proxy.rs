//! The client's decisions around proxying and running: where a
//! repository's server is, which headers pass the proxy, the URLs it
//! calls, the steps of a task, and the interactive commands.
use vstd::prelude::*;

use crate::client::config::{
    spec_server_port, UserConfig, UserConfigError, UserConfigErrorView, UserRepositoryConfig,
    UserServerConfig, setting_args,
};
use crate::text::{
    chars_of, contains_seq, decimal_text, has_prefix, is_ws, nat_text, occurs_at, occurs_at_exec, same_text,
    skip_char_backward, starts_with_chars, string_of_range, texts, trim_bounds, trim_end_char,
    trim_ws,
};

verus! {

/// Why a `repository.where` address was refused.
#[derive(Debug)]
pub enum UpstreamError {
    WhereEmpty,
    HttpsUnsupported,
    UnsupportedScheme(String),
}

impl UpstreamError {
    /// The message reported for the error.
    pub open spec fn spec_message(&self) -> Seq<char> {
        match self {
            UpstreamError::WhereEmpty => "repository.where must not be empty"@,
            UpstreamError::HttpsUnsupported => "https is not supported for repository.where"@,
            UpstreamError::UnsupportedScheme(s) => "unsupported scheme for repository.where: "@ + s@,
        }
    }

    /// The message reported for the error.
    pub fn message(&self) -> (r: String)
        ensures
            r@ == self.spec_message(),
    {
        match self {
            UpstreamError::WhereEmpty => String::from_str("repository.where must not be empty"),
            UpstreamError::HttpsUnsupported => String::from_str(
                "https is not supported for repository.where",
            ),
            UpstreamError::UnsupportedScheme(s) => {
                let mut m = String::from_str("unsupported scheme for repository.where: ");
                m.append(s.as_str());
                m
            },
        }
    }
}

/// The first position of `p` in `s` at or after `i`, if any.
pub open spec fn first_occurrence_from(s: Seq<char>, p: Seq<char>, i: int) -> Option<int>
    decreases s.len() + 1 - i,
{
    if i < 0 || i > s.len() {
        None
    } else if occurs_at(s, p, i) {
        Some(i)
    } else {
        first_occurrence_from(s, p, i + 1)
    }
}

/// The first position of `p` in `s`, if any (`str::split_once`).
pub open spec fn first_occurrence(s: Seq<char>, p: Seq<char>) -> Option<int> {
    first_occurrence_from(s, p, 0)
}

proof fn lemma_first_occurrence_found(s: Seq<char>, p: Seq<char>, i: int)
    requires
        first_occurrence_from(s, p, i) is Some,
    ensures
        occurs_at(s, p, first_occurrence_from(s, p, i)->0),
        i <= first_occurrence_from(s, p, i)->0,
    decreases s.len() + 1 - i,
{
    if 0 <= i <= s.len() && !occurs_at(s, p, i) {
        lemma_first_occurrence_found(s, p, i + 1);
    }
}

/// The outcome for a `repository.where` address: `http://` is added when
/// no scheme is given; only `http` is accepted.
pub enum UpstreamOutcome {
    Base(Seq<char>),
    WhereEmpty,
    HttpsUnsupported,
    UnsupportedScheme(Seq<char>),
}

/// What `normalize_upstream_base` makes of `input`.
pub open spec fn spec_upstream(input: Seq<char>) -> UpstreamOutcome {
    let t = trim_end_char(trim_ws(input), '/');
    if t.len() == 0 {
        UpstreamOutcome::WhereEmpty
    } else if has_prefix(t, "https://"@) {
        UpstreamOutcome::HttpsUnsupported
    } else {
        match first_occurrence(t, "://"@) {
            Some(k) => if t.subrange(0, k) != "http"@ {
                UpstreamOutcome::UnsupportedScheme(t.subrange(0, k))
            } else {
                UpstreamOutcome::Base(t)
            },
            None => UpstreamOutcome::Base("http://"@ + t),
        }
    }
}

/// How an address is read, `t` being the address without surrounding
/// whitespace and trailing slashes: empty, it is refused; `https://` is
/// refused; `http://...` is kept as it is; without a scheme, `http://` is
/// put before it. Every base accepted starts with `http://`.
pub proof fn lemma_upstream_cases(input: Seq<char>)
    ensures
        ({
            let t = trim_end_char(trim_ws(input), '/');
            &&& t.len() == 0 ==> spec_upstream(input) == UpstreamOutcome::WhereEmpty
            &&& has_prefix(t, "https://"@) ==> spec_upstream(input) == UpstreamOutcome::HttpsUnsupported
            &&& has_prefix(t, "http://"@) ==> spec_upstream(input) == UpstreamOutcome::Base(t)
            &&& t.len() > 0 && !contains_seq(t, "://"@) ==> spec_upstream(input)
                == UpstreamOutcome::Base("http://"@ + t)
        }),
        spec_upstream(input) matches UpstreamOutcome::Base(b) ==> has_prefix(b, "http://"@),
{
    reveal_strlit("https://");
    reveal_strlit("http://");
    reveal_strlit("://");
    reveal_strlit("http");
    let t = trim_end_char(trim_ws(input), '/');
    let p = "://"@;
    if has_prefix(t, "http://"@) {
        assert(t.subrange(0, 7) == "http://"@);
        assert forall|i: int| 0 <= i < 7 implies t[i] == "http://"@[i] by {
            assert(t[i] == t.subrange(0, 7)[i]);
        }
        assert(!occurs_at(t, p, 0)) by {
            assert(t.subrange(0, 3)[0] != p[0]);
        }
        assert(!occurs_at(t, p, 1)) by {
            assert(t.subrange(1, 4)[0] != p[0]);
        }
        assert(!occurs_at(t, p, 2)) by {
            assert(t.subrange(2, 5)[0] != p[0]);
        }
        assert(!occurs_at(t, p, 3)) by {
            assert(t.subrange(3, 6)[0] != p[0]);
        }
        assert(occurs_at(t, p, 4)) by {
            assert(t.subrange(4, 7) =~= p);
        }
        assert(first_occurrence_from(t, p, 4) == Some(4int));
        assert(first_occurrence_from(t, p, 3) == Some(4int));
        assert(first_occurrence_from(t, p, 2) == Some(4int));
        assert(first_occurrence_from(t, p, 1) == Some(4int));
        assert(first_occurrence_from(t, p, 0) == Some(4int));
        assert(t.subrange(0, 4) =~= "http"@);
        if has_prefix(t, "https://"@) {
            assert(t[4] == t.subrange(0, 8)[4]);
        }
        assert(spec_upstream(input) == UpstreamOutcome::Base(t));
    }
    if t.len() > 0 && !contains_seq(t, p) {
        if first_occurrence(t, p) is Some {
            lemma_first_occurrence_found(t, p, 0);
            assert(contains_seq(t, p));
        }
        if has_prefix(t, "https://"@) {
            assert(t.subrange(0, 8) == "https://"@);
            assert forall|i: int| 0 <= i < 3 implies t.subrange(5, 8)[i] == p[i] by {
                assert(t.subrange(5, 8)[i] == t.subrange(0, 8)[i + 5]);
            }
            assert(t.subrange(5, 8) =~= p);
            assert(occurs_at(t, p, 5));
        }
        assert(spec_upstream(input) == UpstreamOutcome::Base("http://"@ + t));
        assert(has_prefix("http://"@ + t, "http://"@)) by {
            assert(("http://"@ + t).subrange(0, 7) =~= "http://"@);
        }
    }
    if let UpstreamOutcome::Base(b) = spec_upstream(input) {
        match first_occurrence(t, p) {
            Some(k) => {
                lemma_first_occurrence_found(t, p, 0);
                assert(t.subrange(0, k) == "http"@);
                assert(t.subrange(0, k).len() == k);
                assert(k == 4);
                assert(t.subrange(k, k + 3) == p);
                assert(t.subrange(0, 7) =~= "http"@ + p);
                assert("http"@ + p =~= "http://"@);
            },
            None => {
                assert(("http://"@ + t).subrange(0, 7) =~= "http://"@);
            },
        }
    }
}

/// The first position of `p` in `v`, if any.
fn find_pattern(v: &Vec<char>, p: &Vec<char>) -> (r: Option<usize>)
    ensures
        match r {
            Some(k) => first_occurrence(v@, p@) == Some(k as int),
            None => first_occurrence(v@, p@) is None,
        },
{
    let mut i: usize = 0;
    while i <= v.len()
        invariant
            i <= v@.len() + 1,
            first_occurrence(v@, p@) == first_occurrence_from(v@, p@, i as int),
        decreases v@.len() + 1 - i,
    {
        if occurs_at_exec(v, p, i) {
            return Some(i);
        }
        if i == v.len() {
            assert(first_occurrence_from(v@, p@, i + 1) is None);
            return None;
        }
        i = i + 1;
    }
    None
}

/// The base URL of a server at `input` (a `repository.where` address).
pub fn normalize_upstream_base(input: &str) -> (r: Result<String, UpstreamError>)
    ensures
        match r {
            Ok(b) => spec_upstream(input@) == UpstreamOutcome::Base(b@),
            Err(UpstreamError::WhereEmpty) => spec_upstream(input@) == UpstreamOutcome::WhereEmpty,
            Err(UpstreamError::HttpsUnsupported) => spec_upstream(input@)
                == UpstreamOutcome::HttpsUnsupported,
            Err(UpstreamError::UnsupportedScheme(s)) => spec_upstream(input@)
                == UpstreamOutcome::UnsupportedScheme(s@),
        },
{
    let v = chars_of(input);
    let (a, b) = trim_bounds(&v, 0, v.len());
    assert(v@.subrange(0, v@.len() as int) =~= input@);
    let e = skip_char_backward(&v, a, b, '/');
    let t = string_of_range(&v, a, e);
    if a == e {
        return Err(UpstreamError::WhereEmpty);
    }
    let tv = chars_of(t.as_str());
    let https = chars_of("https://");
    if starts_with_chars(&tv, &https) {
        return Err(UpstreamError::HttpsUnsupported);
    }
    let sep = chars_of("://");
    match find_pattern(&tv, &sep) {
        Some(k) => {
            proof {
                lemma_first_occurrence_found(tv@, sep@, 0);
            }
            let scheme = string_of_range(&tv, 0, k);
            if !same_text(scheme.as_str(), "http") {
                return Err(UpstreamError::UnsupportedScheme(scheme));
            }
            Ok(t)
        },
        None => {
            let mut s = String::from_str("http://");
            s.append(t.as_str());
            Ok(s)
        },
    }
}

/// Whether a header belongs to one connection and is not forwarded.
pub open spec fn spec_hop_by_hop(name: Seq<char>) -> bool {
    name == "connection"@ || name == "keep-alive"@ || name == "proxy-authenticate"@ || name
        == "proxy-authorization"@ || name == "te"@ || name == "trailer"@ || name
        == "transfer-encoding"@ || name == "upgrade"@
}

/// Whether a header (named in lower case) belongs to one connection.
pub fn is_hop_by_hop_header(name: &str) -> (r: bool)
    ensures
        r == spec_hop_by_hop(name@),
{
    same_text(name, "connection") || same_text(name, "keep-alive") || same_text(
        name,
        "proxy-authenticate",
    ) || same_text(name, "proxy-authorization") || same_text(name, "te") || same_text(
        name,
        "trailer",
    ) || same_text(name, "transfer-encoding") || same_text(name, "upgrade")
}

/// Whether a request header is dropped by the proxy: the host, the
/// connection headers and the identity the proxy sets itself.
pub fn is_skipped_request_header(name: &str) -> (r: bool)
    ensures
        r == (name@ == "host"@ || spec_hop_by_hop(name@) || name@ == "user-identity"@),
{
    same_text(name, "host") || is_hop_by_hop_header(name) || same_text(name, "user-identity")
}

/// Whether a response header is dropped by the proxy.
pub fn is_skipped_response_header(name: &str) -> (r: bool)
    ensures
        r == spec_hop_by_hop(name@),
{
    is_hop_by_hop_header(name)
}

/// The kinds of I/O error a connection attempt can end with.
#[derive(Debug, Clone, Copy, PartialEq, Eq, Structural)]
pub enum IoErrorKind {
    ConnectionRefused,
    ConnectionAborted,
    ConnectionReset,
    TimedOut,
    NotConnected,
    Other,
}

/// Whether a failed connection means the server is not up yet.
pub fn is_connection_pending(kind: IoErrorKind) -> (r: bool)
    ensures
        r == (kind != IoErrorKind::Other),
{
    match kind {
        IoErrorKind::ConnectionRefused | IoErrorKind::ConnectionAborted
        | IoErrorKind::ConnectionReset | IoErrorKind::TimedOut | IoErrorKind::NotConnected => true,
        IoErrorKind::Other => false,
    }
}

/// The URL a request is forwarded to: the upstream base followed by the
/// request's path and query (`/` when there is none).
pub fn target_url(upstream_base: &str, path_and_query: Option<&str>) -> (r: String)
    ensures
        r@ == upstream_base@ + match path_and_query {
            Some(p) => p@,
            None => "/"@,
        },
{
    let mut s = String::from_str(upstream_base);
    match path_and_query {
        Some(p) => s.append(p),
        None => s.append("/"),
    }
    s
}

/// The URL that runs `plugin` on a server: `<base><prefix>/<plugin>/run`.
pub fn plugin_run_url(upstream_base: &str, plugin_url_prefix: &str, plugin: &str) -> (r: String)
    ensures
        r@ == upstream_base@ + plugin_url_prefix@ + "/"@ + plugin@ + "/run"@,
{
    let mut s = String::from_str(upstream_base);
    s.append(plugin_url_prefix);
    s.append("/");
    s.append(plugin);
    s.append("/run");
    s
}

/// The base URL of a server the client started on `port`.
pub fn spawned_upstream_base(port: u16) -> (r: String)
    ensures
        r@ == "http://127.0.0.1:"@ + decimal_text(port as nat),
{
    let t = nat_text(port as u64);
    let mut s = String::from_str("http://127.0.0.1:");
    s.append(t.as_str());
    s
}

/// Where the server of a `spawn` repository listens: its base URL and
/// port; or why the configuration gives none.
pub fn spawn_target(repository: &UserRepositoryConfig) -> (r: Result<(String, u16), UserConfigError>)
    ensures
        match r {
            Ok((base, port)) => repository.server matches Some(s) && spec_server_port(s.values@)
                == Some(port) && base@ == "http://127.0.0.1:"@ + decimal_text(port as nat),
            Err(e) => match repository.server {
                None => e@ == UserConfigErrorView::ServerConfigRequired,
                Some(s) => spec_server_port(s.values@) is None && e@
                    == UserConfigErrorView::ServerPortRequired(repository.name@),
            },
        },
{
    let server = match repository.server_config() {
        Ok(s) => s,
        Err(e) => {
            return Err(e);
        },
    };
    match server.port() {
        Some(port) => Ok((spawned_upstream_base(port), port)),
        None => Err(UserConfigError::ServerPortRequired(repository.name.clone())),
    }
}

/// How a started server's task ended.
#[derive(Debug)]
pub enum ServerTaskEnd {
    /// It returned normally.
    Exited,
    /// It returned an error.
    Failed,
    /// It could not be joined, for this reason.
    JoinFailed(String),
}

/// The error reported when a started server's task ends before the server
/// accepts connections.
pub fn early_exit_message(end: &ServerTaskEnd) -> (r: String)
    ensures
        r@ == match end {
            ServerTaskEnd::JoinFailed(cause) => "server task failed before becoming ready: "@ + cause@,
            _ => "server task exited before becoming ready"@,
        },
{
    match end {
        ServerTaskEnd::JoinFailed(cause) => {
            let mut m = String::from_str("server task failed before becoming ready: ");
            m.append(cause.as_str());
            m
        },
        _ => String::from_str("server task exited before becoming ready"),
    }
}

/// What waiting for a started server does after one connection attempt.
#[derive(Debug, PartialEq, Eq)]
pub enum ReadyStep {
    /// The server accepts connections.
    Ready,
    /// Try again after a short pause.
    Retry,
    /// Give up with this message.
    Fail(String),
}

/// The next step of waiting for a started server, given the outcome of a
/// connection attempt (`None` when it connected) and whether the deadline
/// has passed.
pub fn connect_step(refused: Option<IoErrorKind>, past_deadline: bool) -> (r: ReadyStep)
    ensures
        match refused {
            None => r == ReadyStep::Ready,
            Some(kind) => if kind != IoErrorKind::Other {
                if past_deadline {
                    r matches ReadyStep::Fail(m) && m@ == "timed out waiting for server to start"@
                } else {
                    r == ReadyStep::Retry
                }
            } else {
                r matches ReadyStep::Fail(m) && m@ == "failed to connect to spawned server"@
            },
        },
{
    match refused {
        None => ReadyStep::Ready,
        Some(kind) => if is_connection_pending(kind) {
            if past_deadline {
                ReadyStep::Fail(String::from_str("timed out waiting for server to start"))
            } else {
                ReadyStep::Retry
            }
        } else {
            ReadyStep::Fail(String::from_str("failed to connect to spawned server"))
        },
    }
}

/// The state of the client while its proxies and its REPL run.
#[derive(Debug)]
pub struct RunState {
    /// The first error met; it is what the client ends with.
    pub first_error: Option<String>,
    pub repl_done: bool,
    /// The proxy tasks still running.
    pub tasks_left: usize,
}

/// Something that ended while the client runs.
#[derive(Debug)]
pub enum RunEvent {
    /// The REPL ended, with its error if any.
    ReplFinished(Option<String>),
    /// A proxy task ended, with its error if any.
    ProxyFinished(Option<String>),
    /// A proxy task could not be joined, for this reason.
    ProxyJoinFailed(String),
}

/// What the client does after an event: whether it signals every task to
/// shut down, and whether it stops waiting.
#[derive(Debug, PartialEq, Eq)]
pub struct RunAction {
    pub shutdown: bool,
    pub stop: bool,
}

/// The first error kept, given the one held and one newly met.
pub open spec fn keep_first(held: Option<String>, new: Option<Seq<char>>) -> Option<Seq<char>> {
    match held {
        Some(e) => Some(e@),
        None => new,
    }
}

/// The first error met is the one reported: once an error is held, later
/// ones never replace it, and with none held the new one is kept.
pub proof fn lemma_first_error_stays(held: Option<String>, new: Option<Seq<char>>)
    ensures
        held matches Some(h) ==> keep_first(held, new) == Some(h@),
        held is None ==> keep_first(held, new) == new,
{
}

/// The state after `event` and what to do: the REPL's end signals
/// shutdown; a proxy's failure signals shutdown and stops waiting; the
/// first error is kept; waiting stops once the REPL is done and no proxy
/// runs.
pub fn run_step(state: RunState, event: RunEvent) -> (r: (RunState, RunAction))
    requires
        match event {
            RunEvent::ReplFinished(_) => true,
            _ => state.tasks_left > 0,
        },
    ensures
        match event {
            RunEvent::ReplFinished(e) => {
                &&& r.0.repl_done
                &&& r.0.tasks_left == state.tasks_left
                &&& opt_view(r.0.first_error) == keep_first(state.first_error, opt_view(e))
                &&& r.1 == (RunAction { shutdown: true, stop: state.tasks_left == 0 })
            },
            RunEvent::ProxyFinished(None) => {
                &&& r.0.repl_done == state.repl_done
                &&& r.0.tasks_left == state.tasks_left - 1
                &&& opt_view(r.0.first_error) == opt_view(state.first_error)
                &&& r.1 == (RunAction {
                    shutdown: false,
                    stop: state.repl_done && state.tasks_left - 1 == 0,
                })
            },
            RunEvent::ProxyFinished(Some(e)) => {
                &&& r.0.repl_done == state.repl_done
                &&& r.0.tasks_left == state.tasks_left - 1
                &&& opt_view(r.0.first_error) == keep_first(state.first_error, Some(e@))
                &&& r.1 == (RunAction { shutdown: true, stop: true })
            },
            RunEvent::ProxyJoinFailed(cause) => {
                &&& r.0.repl_done == state.repl_done
                &&& r.0.tasks_left == state.tasks_left - 1
                &&& opt_view(r.0.first_error) == keep_first(
                    state.first_error,
                    Some("proxy server task failed: "@ + cause@),
                )
                &&& r.1 == (RunAction { shutdown: true, stop: true })
            },
        },
{
    match event {
        RunEvent::ReplFinished(e) => {
            let stop = state.tasks_left == 0;
            let first_error = match state.first_error {
                Some(f) => Some(f),
                None => e,
            };
            (
                RunState { first_error, repl_done: true, tasks_left: state.tasks_left },
                RunAction { shutdown: true, stop },
            )
        },
        RunEvent::ProxyFinished(None) => {
            let left = state.tasks_left - 1;
            let stop = state.repl_done && left == 0;
            (
                RunState { first_error: state.first_error, repl_done: state.repl_done, tasks_left: left },
                RunAction { shutdown: false, stop },
            )
        },
        RunEvent::ProxyFinished(Some(e)) => {
            let first_error = match state.first_error {
                Some(f) => Some(f),
                None => Some(e),
            };
            (
                RunState { first_error, repl_done: state.repl_done, tasks_left: state.tasks_left - 1 },
                RunAction { shutdown: true, stop: true },
            )
        },
        RunEvent::ProxyJoinFailed(cause) => {
            let first_error = match state.first_error {
                Some(f) => Some(f),
                None => {
                    let mut m = String::from_str("proxy server task failed: ");
                    m.append(cause.as_str());
                    Some(m)
                },
            };
            (
                RunState { first_error, repl_done: state.repl_done, tasks_left: state.tasks_left - 1 },
                RunAction { shutdown: true, stop: true },
            )
        },
    }
}

/// The text of an optional string.
pub open spec fn opt_view(o: Option<String>) -> Option<Seq<char>> {
    match o {
        Some(s) => Some(s@),
        None => None,
    }
}

/// The command line of a server the client starts for the repository at
/// `repository_root`: the root, then the configured settings.
pub fn server_cli_args(repository_root: &str, server: &UserServerConfig) -> (r: Result<
    Vec<String>,
    UserConfigError,
>)
    requires
        server.wf(),
    ensures
        match r {
            Ok(v) => setting_args(server.values@, 0) matches Ok(flags) && texts(v@) == seq![
                repository_root@,
            ] + flags + texts(server.args@),
            Err(e) => setting_args(server.values@, 0) == Err::<Seq<Seq<char>>, UserConfigErrorView>(
                e@,
            ),
        },
{
    let rest = match server.cli_args() {
        Ok(v) => v,
        Err(e) => {
            return Err(e);
        },
    };
    let mut out: Vec<String> = Vec::new();
    out.push(String::from_str(repository_root));
    let ghost head = texts(out@);
    let mut i: usize = 0;
    while i < rest.len()
        invariant
            i <= rest@.len(),
            texts(out@) == head + texts(rest@).subrange(0, i as int),
        decreases rest@.len() - i,
    {
        let ghost before = out@;
        out.push(rest[i].clone());
        proof {
            crate::text::lemma_texts_push(before, rest@[i as int]);
            assert(texts(rest@).subrange(0, i + 1) =~= texts(rest@).subrange(0, i as int).push(
                rest@[i as int]@,
            ));
        }
        i = i + 1;
    }
    assert(texts(rest@).subrange(0, rest@.len() as int) =~= texts(rest@));
    assert(head =~= seq![repository_root@]);
    Ok(out)
}

/// The repositories a task's steps run on, in order, and the error that
/// stops them: an unknown task, or a step naming an unknown repository.
pub struct TaskPlan {
    /// For each step to run: the repository index and the step index.
    pub steps: Vec<(usize, usize)>,
    pub error: Option<UserConfigError>,
    /// The task found, if any.
    pub task: Option<usize>,
}

impl UserConfig {
    /// The steps of the task `task_name` with the repository each runs on.
    pub fn plan_task(&self, task_name: &str) -> (r: TaskPlan)
        ensures
            match r.task {
                None => r.steps@.len() == 0 && (forall|k: int|
                    0 <= k < self.task@.len() ==> self.task@[k].name@ != task_name@)
                    && r.error is None,
                Some(t) => {
                    &&& t < self.task@.len()
                    &&& self.task@[t as int].name@ == task_name@
                    &&& forall|k: int| 0 <= k < t ==> self.task@[k].name@ != task_name@
                    &&& r.steps@.len() <= self.task@[t as int].step@.len()
                    &&& forall|s: int|
                        0 <= s < r.steps@.len() ==> (#[trigger] r.steps@[s]).1 == s && r.steps@[s].0
                            < self.repository@.len() && self.repository@[r.steps@[s].0 as int].name@
                            == self.task@[t as int].step@[s].repository@ && forall|j: int|
                            0 <= j < r.steps@[s].0 ==> self.repository@[j].name@
                                != self.task@[t as int].step@[s].repository@
                    &&& match r.error {
                        None => r.steps@.len() == self.task@[t as int].step@.len(),
                        Some(e) => r.steps@.len() < self.task@[t as int].step@.len() && e@
                            == UserConfigErrorView::RepositoryNotFound(
                            self.task@[t as int].step@[r.steps@.len() as int].repository@,
                        ) && forall|j: int|
                            0 <= j < self.repository@.len() ==> self.repository@[j].name@
                                != self.task@[t as int].step@[r.steps@.len() as int].repository@,
                    }
                },
            },
    {
        let mut t: usize = 0;
        while t < self.task.len()
            invariant
                t <= self.task@.len(),
                forall|k: int| 0 <= k < t ==> self.task@[k].name@ != task_name@,
            ensures
                t <= self.task@.len(),
                forall|k: int| 0 <= k < t ==> self.task@[k].name@ != task_name@,
                t < self.task@.len() ==> self.task@[t as int].name@ == task_name@,
            decreases self.task@.len() - t,
        {
            if same_text(self.task[t].name.as_str(), task_name) {
                break;
            }
            t = t + 1;
        }
        if t == self.task.len() {
            return TaskPlan { steps: Vec::new(), error: None, task: None };
        }
        let task = &self.task[t];
        let mut steps: Vec<(usize, usize)> = Vec::new();
        let mut s: usize = 0;
        while s < task.step.len()
            invariant
                t < self.task@.len(),
                *task == self.task@[t as int],
                self.task@[t as int].name@ == task_name@,
                forall|k: int| 0 <= k < t ==> self.task@[k].name@ != task_name@,
                s <= task.step@.len(),
                steps@.len() == s,
                forall|q: int|
                    0 <= q < s ==> (#[trigger] steps@[q]).1 == q && steps@[q].0 < self.repository@.len()
                        && self.repository@[steps@[q].0 as int].name@ == task.step@[q].repository@
                        && forall|j: int|
                        0 <= j < steps@[q].0 ==> self.repository@[j].name@ != task.step@[q].repository@,
            decreases task.step@.len() - s,
        {
            match self.find_repository_index(task.step[s].repository.as_str()) {
                None => {
                    return TaskPlan {
                        steps,
                        error: Some(UserConfigError::RepositoryNotFound(task.step[s].repository.clone())),
                        task: Some(t),
                    };
                },
                Some(k) => {
                    steps.push((k, s));
                },
            }
            s = s + 1;
        }
        TaskPlan { steps, error: None, task: Some(t) }
    }
}

/// A command typed at the REPL.
#[derive(Debug)]
pub enum ReplCommand {
    Task(String),
    Plugin { repository_name: String, plugin_name: String },
    Help,
}

/// Why a REPL line was refused.
#[derive(Debug)]
pub enum ReplError {
    TaskUsage,
    PluginUsage,
    UnknownCommand(String),
}

impl ReplError {
    /// The message reported for the error.
    pub open spec fn spec_message(&self) -> Seq<char> {
        match self {
            ReplError::TaskUsage => "usage: task <task-name>"@,
            ReplError::PluginUsage => "usage: plugin <repository-name> <plugin-name>"@,
            ReplError::UnknownCommand(c) => "unknown command: "@ + c@,
        }
    }

    /// The message reported for the error.
    pub fn message(&self) -> (r: String)
        ensures
            r@ == self.spec_message(),
    {
        match self {
            ReplError::TaskUsage => String::from_str("usage: task <task-name>"),
            ReplError::PluginUsage => String::from_str("usage: plugin <repository-name> <plugin-name>"),
            ReplError::UnknownCommand(c) => {
                let mut m = String::from_str("unknown command: ");
                m.append(c.as_str());
                m
            },
        }
    }
}

/// The end of the word starting at `i`: the first whitespace at or after
/// `i`, or the end.
pub open spec fn word_end(s: Seq<char>, i: int) -> int
    decreases s.len() - i,
{
    if i < 0 || i >= s.len() || is_ws(s[i]) {
        i
    } else {
        word_end(s, i + 1)
    }
}

proof fn lemma_word_end(s: Seq<char>, i: int)
    requires
        0 <= i <= s.len(),
    ensures
        i <= word_end(s, i) <= s.len(),
        forall|k: int| i <= k < word_end(s, i) ==> !is_ws(#[trigger] s[k]),
        word_end(s, i) < s.len() ==> is_ws(s[word_end(s, i)]),
    decreases s.len() - i,
{
    if i < s.len() && !is_ws(s[i]) {
        lemma_word_end(s, i + 1);
    }
}

/// The words of `s[i..]` (`str::split_whitespace`).
pub open spec fn words_from(s: Seq<char>, i: int) -> Seq<Seq<char>>
    decreases s.len() - i, 1int,
{
    if i < 0 || i >= s.len() {
        Seq::empty()
    } else if is_ws(s[i]) {
        words_from(s, i + 1)
    } else {
        let e = word_end(s, i + 1);
        if e <= i || e > s.len() {
            Seq::empty()
        } else {
            seq![s.subrange(i, e)] + words_from(s, e)
        }
    }
}

/// The words of a line.
pub fn split_words(line: &str) -> (r: Vec<String>)
    ensures
        texts(r@) == words_from(line@, 0),
{
    let v = chars_of(line);
    let mut out: Vec<String> = Vec::new();
    let mut i: usize = 0;
    assert(texts(out@) =~= Seq::<Seq<char>>::empty());
    assert(words_from(line@, 0) =~= texts(out@) + words_from(line@, 0));
    while i < v.len()
        invariant
            v@ == line@,
            i <= v@.len(),
            words_from(line@, 0) == texts(out@) + words_from(line@, i as int),
        decreases v@.len() - i,
    {
        if crate::text::is_whitespace(v[i]) {
            i = i + 1;
        } else {
            let mut e = i + 1;
            while e < v.len() && !crate::text::is_whitespace(v[e])
                invariant
                    v@ == line@,
                    i < e <= v@.len(),
                    word_end(line@, i + 1) == word_end(line@, e as int),
                decreases v@.len() - e,
            {
                e = e + 1;
            }
            proof {
                lemma_word_end(line@, i + 1);
            }
            let w = string_of_range(&v, i, e);
            let ghost before = out@;
            out.push(w);
            proof {
                crate::text::lemma_texts_push(before, w);
                assert(texts(before) + (seq![w@] + words_from(line@, e as int)) =~= texts(out@)
                    + words_from(line@, e as int));
            }
            i = e;
        }
    }
    assert(texts(out@) + Seq::<Seq<char>>::empty() =~= texts(out@));
    out
}

/// What a REPL command's words mean.
pub open spec fn spec_repl_command(words: Seq<Seq<char>>) -> Result<ReplCommandView, ReplErrorView> {
    if words.len() == 0 {
        Ok(ReplCommandView::Help)
    } else if words[0] == "task"@ {
        if words.len() == 2 {
            Ok(ReplCommandView::Task(words[1]))
        } else {
            Err(ReplErrorView::TaskUsage)
        }
    } else if words[0] == "plugin"@ {
        if words.len() == 3 {
            Ok(ReplCommandView::Plugin(words[1], words[2]))
        } else {
            Err(ReplErrorView::PluginUsage)
        }
    } else if words[0] == "help"@ {
        Ok(ReplCommandView::Help)
    } else {
        Err(ReplErrorView::UnknownCommand(words[0]))
    }
}

/// A [`ReplCommand`] with its texts taken by value.
pub enum ReplCommandView {
    Task(Seq<char>),
    Plugin(Seq<char>, Seq<char>),
    Help,
}

/// A [`ReplError`] with its text taken by value.
pub enum ReplErrorView {
    TaskUsage,
    PluginUsage,
    UnknownCommand(Seq<char>),
}

impl View for ReplCommand {
    type V = ReplCommandView;

    open spec fn view(&self) -> ReplCommandView {
        match self {
            ReplCommand::Task(t) => ReplCommandView::Task(t@),
            ReplCommand::Plugin { repository_name, plugin_name } => ReplCommandView::Plugin(
                repository_name@,
                plugin_name@,
            ),
            ReplCommand::Help => ReplCommandView::Help,
        }
    }
}

impl View for ReplError {
    type V = ReplErrorView;

    open spec fn view(&self) -> ReplErrorView {
        match self {
            ReplError::TaskUsage => ReplErrorView::TaskUsage,
            ReplError::PluginUsage => ReplErrorView::PluginUsage,
            ReplError::UnknownCommand(c) => ReplErrorView::UnknownCommand(c@),
        }
    }
}

/// Reads a REPL command.
pub fn parse_repl_command(line: &str) -> (r: Result<ReplCommand, ReplError>)
    ensures
        match r {
            Ok(c) => spec_repl_command(words_from(line@, 0)) == Ok::<ReplCommandView, ReplErrorView>(
                c@,
            ),
            Err(e) => spec_repl_command(words_from(line@, 0)) == Err::<ReplCommandView, ReplErrorView>(
                e@,
            ),
        },
{
    let words = split_words(line);
    let ghost ws = texts(words@);
    if words.len() == 0 {
        return Ok(ReplCommand::Help);
    }
    assert(ws[0] == words@[0]@);
    if same_text(words[0].as_str(), "task") {
        if words.len() == 2 {
            assert(ws[1] == words@[1]@);
            return Ok(ReplCommand::Task(words[1].clone()));
        }
        return Err(ReplError::TaskUsage);
    }
    if same_text(words[0].as_str(), "plugin") {
        if words.len() == 3 {
            assert(ws[1] == words@[1]@);
            assert(ws[2] == words@[2]@);
            return Ok(
                ReplCommand::Plugin {
                    repository_name: words[1].clone(),
                    plugin_name: words[2].clone(),
                },
            );
        }
        return Err(ReplError::PluginUsage);
    }
    if same_text(words[0].as_str(), "help") {
        return Ok(ReplCommand::Help);
    }
    Err(ReplError::UnknownCommand(words[0].clone()))
}

/// What the REPL does with a line it reads.
#[derive(Debug)]
pub enum ReplLine {
    /// Blank lines and `#` comments are skipped.
    Skip,
    /// `exit` or `quit` ends the REPL.
    Exit,
    Command(Result<ReplCommand, ReplError>),
}

/// What the REPL does with `line`: the line is trimmed first.
pub fn repl_line(line: &str) -> (r: ReplLine)
    ensures
        ({
            let t = trim_ws(line@);
            match r {
                ReplLine::Skip => t.len() == 0 || t[0] == '#',
                ReplLine::Exit => t.len() > 0 && t[0] != '#' && (t == "exit"@ || t == "quit"@),
                ReplLine::Command(c) => t.len() > 0 && t[0] != '#' && t != "exit"@ && t != "quit"@
                    && match c {
                    Ok(cmd) => spec_repl_command(words_from(t, 0)) == Ok::<
                        ReplCommandView,
                        ReplErrorView,
                    >(cmd@),
                    Err(e) => spec_repl_command(words_from(t, 0)) == Err::<
                        ReplCommandView,
                        ReplErrorView,
                    >(e@),
                },
            }
        }),
{
    let v = chars_of(line);
    let (a, b) = trim_bounds(&v, 0, v.len());
    assert(v@.subrange(0, v@.len() as int) =~= line@);
    let t = string_of_range(&v, a, b);
    if a == b || v[a] == '#' {
        return ReplLine::Skip;
    }
    if same_text(t.as_str(), "exit") || same_text(t.as_str(), "quit") {
        return ReplLine::Exit;
    }
    ReplLine::Command(parse_repl_command(t.as_str()))
}

} // verus!
