//! The server's command line: a repository path followed by
//! `--name=value` overrides of the serving settings.
use vstd::prelude::*;

use crate::settings::ServeSettingsOverride;
use crate::text::{
    chars_of, decimal_text, digit_char, first_index_of, lemma_first_index_of, same_text,
    string_of_range,
};

verus! {

/// What the command line asked for.
#[derive(Debug)]
pub struct CliOptions {
    pub repository_path: String,
    pub serve_overrides: ServeSettingsOverride,
}

/// Why a command line was refused.
#[derive(Debug)]
pub enum CliError {
    /// No repository path was given.
    Usage,
    UnknownArgument(String),
    InvalidPort(String),
}

impl CliError {
    /// The message reported for the error.
    pub open spec fn spec_message(&self) -> Seq<char> {
        match self {
            CliError::Usage => "usage: workspace_fs <repository-path>"@,
            CliError::UnknownArgument(a) => "unknown argument: "@ + a@,
            CliError::InvalidPort(v) => "invalid value for --port: "@ + v@,
        }
    }

    /// The message reported for the error.
    pub fn message(&self) -> (r: String)
        ensures
            r@ == self.spec_message(),
    {
        match self {
            CliError::Usage => String::from_str("usage: workspace_fs <repository-path>"),
            CliError::UnknownArgument(a) => {
                let mut s = String::from_str("unknown argument: ");
                s.append(a.as_str());
                s
            },
            CliError::InvalidPort(v) => {
                let mut s = String::from_str("invalid value for --port: ");
                s.append(v.as_str());
                s
            },
        }
    }
}

/// Whether `c` is an ASCII digit.
pub open spec fn is_digit(c: char) -> bool {
    '0' <= c && c <= '9'
}

/// The value of a string of decimal digits.
pub open spec fn decimal(d: Seq<char>) -> int
    decreases d.len(),
{
    if d.len() == 0 {
        0
    } else {
        decimal(d.drop_last()) * 10 + (d.last() as int - '0' as int)
    }
}

/// The digits of a port text: the text without one leading `+`.
pub open spec fn port_digits(s: Seq<char>) -> Seq<char> {
    if s.len() > 0 && s[0] == '+' {
        s.drop_first()
    } else {
        s
    }
}

/// What `u16::from_str` makes of `s`: decimal digits, after an optional
/// `+`, whose value fits in 16 bits.
pub open spec fn spec_parse_u16(s: Seq<char>) -> Option<u16> {
    let d = port_digits(s);
    if d.len() == 0 || !(forall|i: int| 0 <= i < d.len() ==> is_digit(#[trigger] d[i])) {
        None
    } else if decimal(d) > 65535 {
        None
    } else {
        Some(decimal(d) as u16)
    }
}

proof fn lemma_decimal_nonneg(d: Seq<char>)
    requires
        forall|i: int| 0 <= i < d.len() ==> is_digit(#[trigger] d[i]),
    ensures
        decimal(d) >= 0,
    decreases d.len(),
{
    if d.len() > 0 {
        lemma_decimal_nonneg(d.drop_last());
    }
}

/// Parses a port the way `u16::from_str` does.
pub fn parse_u16(s: &str) -> (r: Option<u16>)
    ensures
        r == spec_parse_u16(s@),
{
    let v = chars_of(s);
    let start: usize = if v.len() > 0 && v[0] == '+' {
        1
    } else {
        0
    };
    let ghost d = port_digits(s@);
    assert(d =~= v@.subrange(start as int, v@.len() as int));
    if start == v.len() {
        assert(d.len() == 0);
        return None;
    }
    let mut value: u32 = 0;
    let mut over = false;
    let mut i = start;
    while i < v.len()
        invariant
            v@ == s@,
            d == port_digits(s@),
            d == v@.subrange(start as int, v@.len() as int),
            start <= i <= v@.len(),
            forall|k: int| 0 <= k < i - start ==> is_digit(#[trigger] d[k]),
            !over ==> value == decimal(d.subrange(0, i - start)),
            over ==> decimal(d.subrange(0, i - start)) > 65535,
            value <= 65535,
        decreases v@.len() - i,
    {
        let c = v[i];
        if !('0' <= c && c <= '9') {
            assert(!is_digit(d[i - start]));
            return None;
        }
        let ghost sub = d.subrange(0, i - start + 1);
        assert(sub.drop_last() =~= d.subrange(0, i - start));
        assert(sub.last() == c);
        proof {
            lemma_decimal_nonneg(d.subrange(0, i - start));
        }
        if !over {
            let next = value * 10 + ((c as u32) - ('0' as u32));
            if next > 65535 {
                over = true;
            } else {
                value = next;
            }
        }
        i = i + 1;
    }
    assert(d.subrange(0, d.len() as int) =~= d);
    if over {
        None
    } else {
        Some(value as u16)
    }
}

/// The options after reading `args[i..]` into `o`.
pub open spec fn spec_parse_flags(args: Seq<String>, i: int, o: OverrideView) -> Result<
    OverrideView,
    CliErrorView,
>
    decreases args.len() - i,
{
    if i < 0 || i >= args.len() {
        Ok(o)
    } else {
        let a = args[i]@;
        match first_index_of(a, '=') {
            None => Err(CliErrorView::UnknownArgument(a)),
            Some(k) => {
                let name = a.subrange(0, k);
                let value = a.subrange(k + 1, a.len() as int);
                if name == "--port"@ {
                    match spec_parse_u16(value) {
                        None => Err(CliErrorView::InvalidPort(value)),
                        Some(p) => spec_parse_flags(args, i + 1, OverrideView { port: Some(p), ..o }),
                    }
                } else if name == "--plugin-url-prefix"@ {
                    spec_parse_flags(args, i + 1, OverrideView { plugin: Some(value), ..o })
                } else if name == "--policy-url-prefix"@ {
                    spec_parse_flags(args, i + 1, OverrideView { policy: Some(value), ..o })
                } else if name == "--info-url-prefix"@ {
                    spec_parse_flags(args, i + 1, OverrideView { info: Some(value), ..o })
                } else {
                    Err(CliErrorView::UnknownArgument(a))
                }
            },
        }
    }
}

/// Serving overrides taken by value.
pub struct OverrideView {
    pub port: Option<u16>,
    pub plugin: Option<Seq<char>>,
    pub policy: Option<Seq<char>>,
    pub info: Option<Seq<char>>,
}

/// A [`CliError`] with its text taken by value.
pub enum CliErrorView {
    Usage,
    UnknownArgument(Seq<char>),
    InvalidPort(Seq<char>),
}

impl View for CliError {
    type V = CliErrorView;

    open spec fn view(&self) -> CliErrorView {
        match self {
            CliError::Usage => CliErrorView::Usage,
            CliError::UnknownArgument(a) => CliErrorView::UnknownArgument(a@),
            CliError::InvalidPort(v) => CliErrorView::InvalidPort(v@),
        }
    }
}

/// The texts of optional strings.
pub open spec fn opt_view(o: Option<String>) -> Option<Seq<char>> {
    match o {
        Some(s) => Some(s@),
        None => None,
    }
}

/// The overrides taken by value.
pub open spec fn override_view(o: ServeSettingsOverride) -> OverrideView {
    OverrideView {
        port: o.port,
        plugin: opt_view(o.plugin_url_prefix),
        policy: opt_view(o.policy_url_prefix),
        info: opt_view(o.info_url_prefix),
    }
}

/// What a command line yields: the repository path and the overrides, or
/// the first problem.
pub open spec fn spec_parse_cli(args: Seq<String>) -> Result<(Seq<char>, OverrideView), CliErrorView> {
    if args.len() == 0 {
        Err(CliErrorView::Usage)
    } else {
        match spec_parse_flags(
            args,
            1,
            OverrideView { port: None, plugin: None, policy: None, info: None },
        ) {
            Err(e) => Err(e),
            Ok(o) => Ok((args[0]@, o)),
        }
    }
}

/// Reads the command line (without the program name).
pub fn parse_cli_options(args: &Vec<String>) -> (r: Result<CliOptions, CliError>)
    ensures
        match r {
            Ok(c) => spec_parse_cli(args@) == Ok::<(Seq<char>, OverrideView), CliErrorView>(
                (c.repository_path@, override_view(c.serve_overrides)),
            ),
            Err(e) => spec_parse_cli(args@) == Err::<(Seq<char>, OverrideView), CliErrorView>(e@),
        },
{
    if args.len() == 0 {
        return Err(CliError::Usage);
    }
    let mut overrides = ServeSettingsOverride::none();
    let mut i: usize = 1;
    while i < args.len()
        invariant
            1 <= i <= args@.len(),
            spec_parse_flags(
                args@,
                1,
                OverrideView { port: None, plugin: None, policy: None, info: None },
            ) == spec_parse_flags(args@, i as int, override_view(overrides)),
        decreases args@.len() - i,
    {
        let arg = &args[i];
        let v = chars_of(arg.as_str());
        let k = crate::text::find_first(&v, '=');
        proof {
            lemma_first_index_of(v@, '=');
        }
        match k {
            None => {
                return Err(CliError::UnknownArgument(arg.clone()));
            },
            Some(k) => {
                let n: usize = v.len();
                assert(k < n);
                let name = string_of_range(&v, 0, k);
                let value = string_of_range(&v, k + 1, n);
                if same_text(name.as_str(), "--port") {
                    match parse_u16(value.as_str()) {
                        None => {
                            return Err(CliError::InvalidPort(value));
                        },
                        Some(p) => {
                            overrides.port = Some(p);
                        },
                    }
                } else if same_text(name.as_str(), "--plugin-url-prefix") {
                    overrides.plugin_url_prefix = Some(value);
                } else if same_text(name.as_str(), "--policy-url-prefix") {
                    overrides.policy_url_prefix = Some(value);
                } else if same_text(name.as_str(), "--info-url-prefix") {
                    overrides.info_url_prefix = Some(value);
                } else {
                    return Err(CliError::UnknownArgument(arg.clone()));
                }
            },
        }
        i = i + 1;
    }
    Ok(CliOptions { repository_path: args[0].clone(), serve_overrides: overrides })
}

/// `--name=value`.
fn flag(name: &str, value: &str) -> (r: String)
    ensures
        r@ == name@ + "="@ + value@,
{
    let mut s = String::from_str(name);
    s.append("=");
    s.append(value);
    s
}

/// `[name=value]` when there is a value, nothing otherwise.
pub open spec fn flag_arg(name: Seq<char>, value: Option<Seq<char>>) -> Seq<Seq<char>> {
    match value {
        Some(v) => seq![name + "="@ + v],
        None => Seq::empty(),
    }
}

/// The port as an argument value.
pub open spec fn port_value(p: Option<u16>) -> Option<Seq<char>> {
    match p {
        Some(n) => Some(decimal_text(n as nat)),
        None => None,
    }
}

/// The command line of a server at `path` with the overrides `o`: the
/// path, then a flag for each override that is set, in the order port,
/// plugin, policy, info.
pub open spec fn server_args(path: Seq<char>, o: OverrideView) -> Seq<Seq<char>> {
    seq![path] + flag_arg("--port"@, port_value(o.port)) + flag_arg("--plugin-url-prefix"@, o.plugin)
        + flag_arg("--policy-url-prefix"@, o.policy) + flag_arg("--info-url-prefix"@, o.info)
}

/// The decimal text of a number is a non-empty run of digits whose value
/// is the number.
proof fn lemma_decimal_text_value(n: nat)
    ensures
        decimal_text(n).len() > 0,
        forall|i: int| 0 <= i < decimal_text(n).len() ==> is_digit(#[trigger] decimal_text(n)[i]),
        decimal(decimal_text(n)) == n,
    decreases n,
{
    let t = decimal_text(n);
    let d = n % 10;
    assert(digit_char(d) as int == d + 48);
    if n >= 10 {
        lemma_decimal_text_value(n / 10);
        assert(t.drop_last() =~= decimal_text(n / 10));
        assert(t.last() == digit_char(d));
        assert(decimal(t) == decimal(decimal_text(n / 10)) * 10 + d);
        assert forall|i: int| 0 <= i < t.len() implies is_digit(#[trigger] t[i]) by {
            if i < t.len() - 1 {
                assert(t[i] == decimal_text(n / 10)[i]);
            }
        }
    } else {
        assert(t.drop_last() =~= Seq::<char>::empty());
        assert(decimal(Seq::<char>::empty()) == 0);
    }
}

/// The decimal text of a port reads back as that port.
proof fn lemma_port_text_parses(p: u16)
    ensures
        spec_parse_u16(decimal_text(p as nat)) == Some(p),
{
    lemma_decimal_text_value(p as nat);
    let t = decimal_text(p as nat);
    assert(is_digit(t[0]));
    assert(port_digits(t) == t);
}

/// Reading the argument `name=value`, where `name` holds no `=`, splits it
/// into that name and value.
proof fn lemma_flag_splits(a: Seq<char>, name: Seq<char>, value: Seq<char>)
    requires
        a == name + "="@ + value,
        forall|j: int| 0 <= j < name.len() ==> name[j] != '=',
    ensures
        first_index_of(a, '=') == Some(name.len() as int),
        a.subrange(0, name.len() as int) == name,
        a.subrange(name.len() as int + 1, a.len() as int) == value,
{
    reveal_strlit("=");
    lemma_first_index_of(a, '=');
    let k = name.len() as int;
    assert(a[k] == '=');
    assert forall|j: int| 0 <= j < k implies a[j] != '=' by {
        assert(a[j] == name[j]);
    }
    assert(a.subrange(0, k) =~= name);
    assert(a.subrange(k + 1, a.len() as int) =~= value);
}

/// Reading the flag `name=v` at `args[i]` sets the override it names.
proof fn lemma_flag_step(args: Seq<String>, i: int, acc: OverrideView, name: Seq<char>, v: Seq<char>)
    requires
        0 <= i < args.len(),
        args[i]@ == name + "="@ + v,
        name == "--plugin-url-prefix"@ || name == "--policy-url-prefix"@ || name
            == "--info-url-prefix"@,
    ensures
        spec_parse_flags(args, i, acc) == spec_parse_flags(
            args,
            i + 1,
            if name == "--plugin-url-prefix"@ {
                OverrideView { plugin: Some(v), ..acc }
            } else if name == "--policy-url-prefix"@ {
                OverrideView { policy: Some(v), ..acc }
            } else {
                OverrideView { info: Some(v), ..acc }
            },
        ),
{
    reveal_strlit("--port");
    reveal_strlit("--plugin-url-prefix");
    reveal_strlit("--policy-url-prefix");
    reveal_strlit("--info-url-prefix");
    lemma_flag_splits(args[i]@, name, v);
    assert(name != "--port"@) by {
        assert(name.len() != "--port"@.len());
    }
}

/// Reading the flag `--port=p` at `args[i]` sets the port.
proof fn lemma_port_step(args: Seq<String>, i: int, acc: OverrideView, p: u16)
    requires
        0 <= i < args.len(),
        args[i]@ == "--port"@ + "="@ + decimal_text(p as nat),
    ensures
        spec_parse_flags(args, i, acc) == spec_parse_flags(
            args,
            i + 1,
            OverrideView { port: Some(p), ..acc },
        ),
{
    reveal_strlit("--port");
    lemma_flag_splits(args[i]@, "--port"@, decimal_text(p as nat));
    lemma_port_text_parses(p);
}

/// Options turned into a command line read back as the same options.
pub proof fn lemma_server_args_round_trip(args: Seq<String>, path: Seq<char>, o: OverrideView)
    requires
        args.map_values(|s: String| s@) == server_args(path, o),
    ensures
        spec_parse_cli(args) == Ok::<(Seq<char>, OverrideView), CliErrorView>((path, o)),
{
    reveal_strlit("--plugin-url-prefix");
    reveal_strlit("--policy-url-prefix");
    reveal_strlit("--info-url-prefix");
    assert("--policy-url-prefix"@[3] != "--plugin-url-prefix"@[3]);
    assert("--info-url-prefix"@.len() != "--plugin-url-prefix"@.len());
    assert("--info-url-prefix"@.len() != "--policy-url-prefix"@.len());
    let views = args.map_values(|s: String| s@);
    assert(views.len() == args.len());
    assert forall|k: int| 0 <= k < args.len() implies #[trigger] args[k]@ == views[k] by {}
    let a0 = seq![path];
    let a1 = a0 + flag_arg("--port"@, port_value(o.port));
    let a2 = a1 + flag_arg("--plugin-url-prefix"@, o.plugin);
    let a3 = a2 + flag_arg("--policy-url-prefix"@, o.policy);
    let a4 = a3 + flag_arg("--info-url-prefix"@, o.info);
    assert(views == a4);
    let none = OverrideView { port: None, plugin: None, policy: None, info: None };
    let o1 = OverrideView { port: o.port, ..none };
    let o2 = OverrideView { plugin: o.plugin, ..o1 };
    let o3 = OverrideView { policy: o.policy, ..o2 };
    assert(args[0]@ == path);
    let i1 = a1.len() as int;
    let i2 = a2.len() as int;
    let i3 = a3.len() as int;
    if let Some(p) = o.port {
        assert(args[1]@ == a4[1]);
        lemma_port_step(args, 1, none, p);
    }
    assert(spec_parse_flags(args, 1, none) == spec_parse_flags(args, i1, o1));
    if let Some(v) = o.plugin {
        assert(args[i1]@ == a4[i1]);
        lemma_flag_step(args, i1, o1, "--plugin-url-prefix"@, v);
    }
    assert(spec_parse_flags(args, i1, o1) == spec_parse_flags(args, i2, o2));
    if let Some(v) = o.policy {
        assert(args[i2]@ == a4[i2]);
        lemma_flag_step(args, i2, o2, "--policy-url-prefix"@, v);
    }
    assert(spec_parse_flags(args, i2, o2) == spec_parse_flags(args, i3, o3));
    if let Some(v) = o.info {
        assert(args[i3]@ == a4[i3]);
        lemma_flag_step(args, i3, o3, "--info-url-prefix"@, v);
    }
    assert(spec_parse_flags(args, i3, o3) == spec_parse_flags(args, a4.len() as int, o));
}

/// The arguments that start a server with these options.
pub fn cli_args_for_server(cli: &CliOptions) -> (r: Vec<String>)
    ensures
        r@.map_values(|s: String| s@) == server_args(
            cli.repository_path@,
            override_view(cli.serve_overrides),
        ),
{
    let mut args: Vec<String> = Vec::new();
    args.push(cli.repository_path.clone());
    if let Some(port) = cli.serve_overrides.port {
        let t = crate::text::nat_text(port as u64);
        args.push(flag("--port", t.as_str()));
    }
    if let Some(v) = &cli.serve_overrides.plugin_url_prefix {
        args.push(flag("--plugin-url-prefix", v.as_str()));
    }
    if let Some(v) = &cli.serve_overrides.policy_url_prefix {
        args.push(flag("--policy-url-prefix", v.as_str()));
    }
    if let Some(v) = &cli.serve_overrides.info_url_prefix {
        args.push(flag("--info-url-prefix", v.as_str()));
    }
    args
}

} // verus!
