//! The client's command lines: the plain one (an optional repository
//! path) and the proxy's (a path, a repository, a task or the REPL).
use vstd::prelude::*;

use crate::text::{chars_of, has_prefix, same_text, starts_with_chars};

verus! {

/// What the plain command line asked for.
#[derive(Debug)]
pub struct CliOptions {
    pub repository_path: Option<String>,
}

/// What the proxy command line asked for.
#[derive(Debug)]
pub struct ProxyCliOptions {
    pub repository_path: Option<String>,
    pub repository_name: Option<String>,
    pub task: Option<String>,
    pub task_only: Option<String>,
    pub repl: bool,
}

/// Why a command line was refused.
#[derive(Debug)]
pub enum ClientCliError {
    UnknownArgument(String),
    MissingValue(String),
    TaskAndTaskOnly,
    ReplWithTask,
}

/// A [`ClientCliError`] with its text taken by value.
pub enum ClientCliErrorView {
    UnknownArgument(Seq<char>),
    MissingValue(Seq<char>),
    TaskAndTaskOnly,
    ReplWithTask,
}

impl View for ClientCliError {
    type V = ClientCliErrorView;

    open spec fn view(&self) -> ClientCliErrorView {
        match self {
            ClientCliError::UnknownArgument(a) => ClientCliErrorView::UnknownArgument(a@),
            ClientCliError::MissingValue(f) => ClientCliErrorView::MissingValue(f@),
            ClientCliError::TaskAndTaskOnly => ClientCliErrorView::TaskAndTaskOnly,
            ClientCliError::ReplWithTask => ClientCliErrorView::ReplWithTask,
        }
    }
}

impl ClientCliErrorView {
    /// The message reported for the error.
    pub open spec fn message(self) -> Seq<char> {
        match self {
            ClientCliErrorView::UnknownArgument(a) => "unknown argument: "@ + a,
            ClientCliErrorView::MissingValue(f) => "missing value for "@ + f,
            ClientCliErrorView::TaskAndTaskOnly => "--task and --task-only are mutually exclusive"@,
            ClientCliErrorView::ReplWithTask => "--repl cannot be combined with --task or --task-only"@,
        }
    }
}

impl ClientCliError {
    /// The message reported for the error.
    pub fn message(&self) -> (r: String)
        ensures
            r@ == self@.message(),
    {
        match self {
            ClientCliError::UnknownArgument(a) => {
                let mut s = String::from_str("unknown argument: ");
                s.append(a.as_str());
                s
            },
            ClientCliError::MissingValue(f) => {
                let mut s = String::from_str("missing value for ");
                s.append(f.as_str());
                s
            },
            ClientCliError::TaskAndTaskOnly => String::from_str(
                "--task and --task-only are mutually exclusive",
            ),
            ClientCliError::ReplWithTask => String::from_str(
                "--repl cannot be combined with --task or --task-only",
            ),
        }
    }
}

/// Whether an argument is a flag (starts with `--`).
pub open spec fn is_flag(a: Seq<char>) -> bool {
    has_prefix(a, "--"@)
}

/// Whether an argument is a flag.
fn arg_is_flag(a: &str) -> (r: bool)
    ensures
        r == is_flag(a@),
{
    let v = chars_of(a);
    let p = chars_of("--");
    starts_with_chars(&v, &p)
}

/// The repository path the plain command line names, reading `args[i..]`
/// after `path`: the first argument that is no flag, and nothing else.
pub open spec fn spec_plain_args(args: Seq<String>, i: int, path: Option<Seq<char>>) -> Result<
    Option<Seq<char>>,
    ClientCliErrorView,
>
    decreases args.len() - i,
{
    if i < 0 || i >= args.len() {
        Ok(path)
    } else if path is None && !is_flag(args[i]@) {
        spec_plain_args(args, i + 1, Some(args[i]@))
    } else {
        Err(ClientCliErrorView::UnknownArgument(args[i]@))
    }
}

/// The texts of optional strings.
pub open spec fn opt_text(o: Option<String>) -> Option<Seq<char>> {
    match o {
        Some(s) => Some(s@),
        None => None,
    }
}

/// Reads the plain command line (without the program name).
pub fn parse_cli_options(args: &Vec<String>) -> (r: Result<CliOptions, ClientCliError>)
    ensures
        match r {
            Ok(c) => spec_plain_args(args@, 0, None) == Ok::<Option<Seq<char>>, ClientCliErrorView>(
                opt_text(c.repository_path),
            ),
            Err(e) => spec_plain_args(args@, 0, None) == Err::<Option<Seq<char>>, ClientCliErrorView>(
                e@,
            ),
        },
{
    let mut path: Option<String> = None;
    let mut i: usize = 0;
    while i < args.len()
        invariant
            i <= args@.len(),
            spec_plain_args(args@, 0, None) == spec_plain_args(args@, i as int, opt_text(path)),
        decreases args@.len() - i,
    {
        if path.is_none() && !arg_is_flag(args[i].as_str()) {
            path = Some(args[i].clone());
        } else {
            return Err(ClientCliError::UnknownArgument(args[i].clone()));
        }
        i = i + 1;
    }
    Ok(CliOptions { repository_path: path })
}

/// The options of the proxy command line taken by value.
pub struct ProxyOptionsView {
    pub path: Option<Seq<char>>,
    pub repository: Option<Seq<char>>,
    pub task: Option<Seq<char>>,
    pub task_only: Option<Seq<char>>,
    pub repl: bool,
}

/// The options after reading `args[i..]` into `o`: the first argument
/// that is no flag is the repository path; `--repository`, `--task` and
/// `--task-only` take the next argument as their value.
pub open spec fn spec_proxy_args(args: Seq<String>, i: int, o: ProxyOptionsView) -> Result<
    ProxyOptionsView,
    ClientCliErrorView,
>
    decreases args.len() - i,
{
    if i < 0 || i >= args.len() {
        Ok(o)
    } else {
        let a = args[i]@;
        if o.path is None && !is_flag(a) {
            spec_proxy_args(args, i + 1, ProxyOptionsView { path: Some(a), ..o })
        } else if a == "--repl"@ {
            spec_proxy_args(args, i + 1, ProxyOptionsView { repl: true, ..o })
        } else if a == "--repository"@ || a == "--task"@ || a == "--task-only"@ {
            if i + 1 >= args.len() {
                Err(ClientCliErrorView::MissingValue(a))
            } else {
                let v = args[i + 1]@;
                spec_proxy_args(
                    args,
                    i + 2,
                    if a == "--repository"@ {
                        ProxyOptionsView { repository: Some(v), ..o }
                    } else if a == "--task"@ {
                        ProxyOptionsView { task: Some(v), ..o }
                    } else {
                        ProxyOptionsView { task_only: Some(v), ..o }
                    },
                )
            }
        } else {
            Err(ClientCliErrorView::UnknownArgument(a))
        }
    }
}

/// What the proxy command line yields, once the combinations are checked.
pub open spec fn spec_parse_proxy_cli(args: Seq<String>) -> Result<ProxyOptionsView, ClientCliErrorView> {
    match spec_proxy_args(
        args,
        0,
        ProxyOptionsView { path: None, repository: None, task: None, task_only: None, repl: false },
    ) {
        Err(e) => Err(e),
        Ok(o) => if o.task is Some && o.task_only is Some {
            Err(ClientCliErrorView::TaskAndTaskOnly)
        } else if o.repl && (o.task is Some || o.task_only is Some) {
            Err(ClientCliErrorView::ReplWithTask)
        } else {
            Ok(o)
        },
    }
}

/// The proxy options taken by value.
pub open spec fn proxy_view(c: ProxyCliOptions) -> ProxyOptionsView {
    ProxyOptionsView {
        path: opt_text(c.repository_path),
        repository: opt_text(c.repository_name),
        task: opt_text(c.task),
        task_only: opt_text(c.task_only),
        repl: c.repl,
    }
}

/// Reads the proxy command line (without the program name).
pub fn parse_proxy_cli_options(args: &Vec<String>) -> (r: Result<ProxyCliOptions, ClientCliError>)
    ensures
        match r {
            Ok(c) => spec_parse_proxy_cli(args@) == Ok::<ProxyOptionsView, ClientCliErrorView>(
                proxy_view(c),
            ),
            Err(e) => spec_parse_proxy_cli(args@) == Err::<ProxyOptionsView, ClientCliErrorView>(e@),
        },
        r matches Ok(c) ==> !(c.task is Some && c.task_only is Some) && !(c.repl && (c.task is Some
            || c.task_only is Some)),
{
    let mut c = ProxyCliOptions {
        repository_path: None,
        repository_name: None,
        task: None,
        task_only: None,
        repl: false,
    };
    let mut i: usize = 0;
    while i < args.len()
        invariant
            i <= args@.len(),
            spec_proxy_args(
                args@,
                0,
                ProxyOptionsView {
                    path: None,
                    repository: None,
                    task: None,
                    task_only: None,
                    repl: false,
                },
            ) == spec_proxy_args(args@, i as int, proxy_view(c)),
        decreases args@.len() - i,
    {
        let a = &args[i];
        if c.repository_path.is_none() && !arg_is_flag(a.as_str()) {
            c.repository_path = Some(a.clone());
            i = i + 1;
        } else if same_text(a.as_str(), "--repl") {
            c.repl = true;
            i = i + 1;
        } else if same_text(a.as_str(), "--repository") || same_text(a.as_str(), "--task")
            || same_text(a.as_str(), "--task-only") {
            if i + 1 >= args.len() {
                return Err(ClientCliError::MissingValue(a.clone()));
            }
            let v = args[i + 1].clone();
            if same_text(a.as_str(), "--repository") {
                c.repository_name = Some(v);
            } else if same_text(a.as_str(), "--task") {
                c.task = Some(v);
            } else {
                c.task_only = Some(v);
            }
            i = i + 2;
        } else {
            return Err(ClientCliError::UnknownArgument(a.clone()));
        }
    }
    if c.task.is_some() && c.task_only.is_some() {
        return Err(ClientCliError::TaskAndTaskOnly);
    }
    if c.repl && (c.task.is_some() || c.task_only.is_some()) {
        return Err(ClientCliError::ReplWithTask);
    }
    Ok(c)
}

/// One step of the proxy client's start-up.
#[derive(Debug)]
pub enum StartupStep {
    /// Run the named task.
    RunTask(String),
    /// Read REPL commands until the input ends, then stop.
    Repl,
    /// Serve the proxy of the named repository, or of every repository.
    StartProxies(Option<String>),
}

/// A [`StartupStep`] with its text taken by value.
pub enum StartupStepView {
    RunTask(Seq<char>),
    Repl,
    StartProxies(Option<Seq<char>>),
}

impl View for StartupStep {
    type V = StartupStepView;

    open spec fn view(&self) -> StartupStepView {
        match self {
            StartupStep::RunTask(t) => StartupStepView::RunTask(t@),
            StartupStep::Repl => StartupStepView::Repl,
            StartupStep::StartProxies(n) => StartupStepView::StartProxies(opt_text(*n)),
        }
    }
}

/// The task the options name, by `--task` or `--task-only`.
pub open spec fn chosen_task(o: ProxyOptionsView) -> Option<Seq<char>> {
    if o.task is Some {
        o.task
    } else {
        o.task_only
    }
}

/// What the proxy client does, in order: the named task first, if any;
/// then nothing more for `--task-only`, the REPL for `--repl`, and
/// otherwise the proxies.
pub open spec fn startup_plan(o: ProxyOptionsView) -> Seq<StartupStepView> {
    let first = match chosen_task(o) {
        Some(t) => seq![StartupStepView::RunTask(t)],
        None => Seq::empty(),
    };
    if o.task_only is Some {
        first
    } else if o.repl {
        first.push(StartupStepView::Repl)
    } else {
        first.push(StartupStepView::StartProxies(o.repository))
    }
}

/// The start-up steps for the proxy options `cli`, in order.
pub fn startup_steps(cli: &ProxyCliOptions) -> (r: Vec<StartupStep>)
    ensures
        r@.map_values(|s: StartupStep| s@) == startup_plan(proxy_view(*cli)),
{
    let mut steps: Vec<StartupStep> = Vec::new();
    let task = match &cli.task {
        Some(t) => Some(t),
        None => match &cli.task_only {
            Some(t) => Some(t),
            None => None,
        },
    };
    if let Some(t) = task {
        steps.push(StartupStep::RunTask(t.clone()));
    }
    if cli.task_only.is_none() {
        if cli.repl {
            steps.push(StartupStep::Repl);
        } else {
            let name = match &cli.repository_name {
                Some(n) => Some(n.clone()),
                None => None,
            };
            steps.push(StartupStep::StartProxies(name));
        }
    }
    assert(steps@.map_values(|s: StartupStep| s@) =~= startup_plan(proxy_view(*cli)));
    steps
}

/// A command line that the proxy accepts never names both `--task` and
/// `--task-only`, nor the REPL together with a task.
pub proof fn lemma_accepted_options_exclusive(args: Seq<String>)
    requires
        spec_parse_proxy_cli(args) is Ok,
    ensures
        ({
            let o = spec_parse_proxy_cli(args)->Ok_0;
            &&& !(o.task is Some && o.task_only is Some)
            &&& !(o.repl && (o.task is Some || o.task_only is Some))
        }),
{
}

/// A command line whose flags read without error but name both `--task`
/// and `--task-only` is refused as mutually exclusive.
pub proof fn lemma_task_and_task_only_refused(args: Seq<String>)
    requires
        spec_proxy_args(
            args,
            0,
            ProxyOptionsView { path: None, repository: None, task: None, task_only: None, repl: false },
        ) matches Ok(o) && o.task is Some && o.task_only is Some,
    ensures
        spec_parse_proxy_cli(args) == Err::<ProxyOptionsView, ClientCliErrorView>(
            ClientCliErrorView::TaskAndTaskOnly,
        ),
{
}

} // verus!
