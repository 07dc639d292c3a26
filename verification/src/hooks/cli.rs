//! The command line of the hook-running server: a repository path and an
//! optional task to run before serving.
use vstd::prelude::*;

use crate::text::same_text;

verus! {

/// The options of the hook-running server.
#[derive(Debug)]
pub struct HookCliOptions {
    pub repository_path: String,
    /// The task run before serving, if any.
    pub task: Option<String>,
}

/// Why the command line was refused.
#[derive(Debug)]
pub enum HookCliError {
    Usage,
    MissingTaskValue,
    UnknownArgument(String),
}

/// A [`HookCliError`] with its text taken by value.
pub enum HookCliErrorView {
    Usage,
    MissingTaskValue,
    UnknownArgument(Seq<char>),
}

impl View for HookCliError {
    type V = HookCliErrorView;

    open spec fn view(&self) -> HookCliErrorView {
        match self {
            HookCliError::Usage => HookCliErrorView::Usage,
            HookCliError::MissingTaskValue => HookCliErrorView::MissingTaskValue,
            HookCliError::UnknownArgument(a) => HookCliErrorView::UnknownArgument(a@),
        }
    }
}

impl HookCliError {
    /// The message reported for the error.
    pub open spec fn spec_message(&self) -> Seq<char> {
        match self {
            HookCliError::Usage => "usage: workspace_fs <repository-path> [--task <name>]"@,
            HookCliError::MissingTaskValue => "missing value for --task"@,
            HookCliError::UnknownArgument(a) => "unknown argument: "@ + a@,
        }
    }

    /// The message reported for the error.
    pub fn message(&self) -> (r: String)
        ensures
            r@ == self.spec_message(),
    {
        match self {
            HookCliError::Usage => String::from_str(
                "usage: workspace_fs <repository-path> [--task <name>]",
            ),
            HookCliError::MissingTaskValue => String::from_str("missing value for --task"),
            HookCliError::UnknownArgument(a) => {
                let mut s = String::from_str("unknown argument: ");
                s.append(a.as_str());
                s
            },
        }
    }
}

/// The task named by the arguments `i..`, given the one named before
/// them: each `--task` takes the next argument, the last one wins, and
/// anything else is refused.
pub open spec fn task_option(args: Seq<String>, i: int, task: Option<Seq<char>>) -> Result<
    Option<Seq<char>>,
    HookCliErrorView,
>
    decreases args.len() - i,
{
    if i < 0 || i >= args.len() {
        Ok(task)
    } else if args[i]@ == "--task"@ {
        if i + 1 >= args.len() {
            Err(HookCliErrorView::MissingTaskValue)
        } else {
            task_option(args, i + 2, Some(args[i + 1]@))
        }
    } else {
        Err(HookCliErrorView::UnknownArgument(args[i]@))
    }
}

/// The text of an optional string.
pub open spec fn text_option(o: Option<String>) -> Option<Seq<char>> {
    match o {
        Some(s) => Some(s@),
        None => None,
    }
}

/// Reads the command line (without the program name): the repository
/// path, then `--task <name>` options.
pub fn parse_cli_options(args: &Vec<String>) -> (r: Result<HookCliOptions, HookCliError>)
    ensures
        match r {
            Ok(o) => args@.len() > 0 && o.repository_path@ == args@[0]@ && task_option(
                args@,
                1,
                None,
            ) == Ok::<Option<Seq<char>>, HookCliErrorView>(text_option(o.task)),
            Err(e) => (args@.len() == 0 && e@ == HookCliErrorView::Usage) || (args@.len() > 0
                && task_option(args@, 1, None) == Err::<Option<Seq<char>>, HookCliErrorView>(e@)),
        },
{
    if args.len() == 0 {
        return Err(HookCliError::Usage);
    }
    let mut task: Option<String> = None;
    let mut i: usize = 1;
    while i < args.len()
        invariant
            1 <= i,
            args@.len() > 0,
            task_option(args@, 1, None) == task_option(args@, i as int, text_option(task)),
        decreases args@.len() - i,
    {
        if same_text(args[i].as_str(), "--task") {
            if i + 1 >= args.len() {
                return Err(HookCliError::MissingTaskValue);
            }
            task = Some(args[i + 1].clone());
            i = i + 2;
        } else {
            return Err(HookCliError::UnknownArgument(args[i].clone()));
        }
    }
    Ok(HookCliOptions { repository_path: args[0].clone(), task })
}

} // verus!
