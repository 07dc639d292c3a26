//! What the server and the hook runner share about plugins: the errors
//! they report, placeholder replacement, and how a plugin's command line
//! is found.
use vstd::prelude::*;

use crate::setting_value::{SettingExpander, SettingValue};
use crate::text::{
    contains_seq, lemma_replace_absent, occurs_at, replace_all, replace_text, same_text,
};

verus! {

/// Why a plugin could not be prepared or planned.
#[derive(Debug)]
pub enum PluginError {
    PluginNotFound(String),
    UnsupportedRunner(String),
    DefaultPluginNotFound(String),
    DefaultCommandEmpty(String),
    FloatMustBeFinite,
    NonFiniteFloat,
    PathPlaceholderWithoutPath(String),
    UnknownPlaceholder(String),
    UnsupportedTrigger(String),
    NotManual(String),
    TaskNotFound(String),
    StepPluginNotFound(String),
    DependencyCycle(String),
}

/// A [`PluginError`] with its texts taken by value.
pub enum PluginErrorView {
    PluginNotFound(Seq<char>),
    UnsupportedRunner(Seq<char>),
    DefaultPluginNotFound(Seq<char>),
    DefaultCommandEmpty(Seq<char>),
    FloatMustBeFinite,
    NonFiniteFloat,
    PathPlaceholderWithoutPath(Seq<char>),
    UnknownPlaceholder(Seq<char>),
    UnsupportedTrigger(Seq<char>),
    NotManual(Seq<char>),
    TaskNotFound(Seq<char>),
    StepPluginNotFound(Seq<char>),
    DependencyCycle(Seq<char>),
}

impl View for PluginError {
    type V = PluginErrorView;

    open spec fn view(&self) -> PluginErrorView {
        match self {
            PluginError::PluginNotFound(s) => PluginErrorView::PluginNotFound(s@),
            PluginError::UnsupportedRunner(s) => PluginErrorView::UnsupportedRunner(s@),
            PluginError::DefaultPluginNotFound(s) => PluginErrorView::DefaultPluginNotFound(s@),
            PluginError::DefaultCommandEmpty(s) => PluginErrorView::DefaultCommandEmpty(s@),
            PluginError::FloatMustBeFinite => PluginErrorView::FloatMustBeFinite,
            PluginError::NonFiniteFloat => PluginErrorView::NonFiniteFloat,
            PluginError::PathPlaceholderWithoutPath(s) => PluginErrorView::PathPlaceholderWithoutPath(
                s@,
            ),
            PluginError::UnknownPlaceholder(s) => PluginErrorView::UnknownPlaceholder(s@),
            PluginError::UnsupportedTrigger(s) => PluginErrorView::UnsupportedTrigger(s@),
            PluginError::NotManual(s) => PluginErrorView::NotManual(s@),
            PluginError::TaskNotFound(s) => PluginErrorView::TaskNotFound(s@),
            PluginError::StepPluginNotFound(s) => PluginErrorView::StepPluginNotFound(s@),
            PluginError::DependencyCycle(s) => PluginErrorView::DependencyCycle(s@),
        }
    }
}

impl PluginErrorView {
    /// The message reported for the error.
    pub open spec fn message(self) -> Seq<char> {
        match self {
            PluginErrorView::PluginNotFound(s) => "plugin not found: "@ + s,
            PluginErrorView::UnsupportedRunner(s) => "unsupported plugin runner: "@ + s,
            PluginErrorView::DefaultPluginNotFound(s) => "default plugin not found: "@ + s,
            PluginErrorView::DefaultCommandEmpty(s) => "default plugin command must not be empty: "@
                + s,
            PluginErrorView::FloatMustBeFinite => "plugin setting float must be finite"@,
            PluginErrorView::NonFiniteFloat => "plugin setting contains non-finite float"@,
            PluginErrorView::PathPlaceholderWithoutPath(s) =>
                "path placeholder requires request path: "@ + s,
            PluginErrorView::UnknownPlaceholder(s) => "unknown placeholder in plugin command: "@ + s,
            PluginErrorView::UnsupportedTrigger(s) => "unsupported plugin trigger: "@ + s,
            PluginErrorView::NotManual(s) => "plugin is not manual: "@ + s,
            PluginErrorView::TaskNotFound(s) => "task not found: "@ + s,
            PluginErrorView::StepPluginNotFound(s) => "plugin not found for task step: "@ + s,
            PluginErrorView::DependencyCycle(s) => "plugin dependency cycle detected at "@ + s,
        }
    }
}

/// `a` followed by `b`.
fn joined(a: &str, b: &str) -> (r: String)
    ensures
        r@ == a@ + b@,
{
    let mut s = String::from_str(a);
    s.append(b);
    s
}

impl PluginError {
    /// The message reported for the error.
    pub fn message(&self) -> (r: String)
        ensures
            r@ == self@.message(),
    {
        match self {
            PluginError::PluginNotFound(s) => joined("plugin not found: ", s.as_str()),
            PluginError::UnsupportedRunner(s) => joined("unsupported plugin runner: ", s.as_str()),
            PluginError::DefaultPluginNotFound(s) => joined("default plugin not found: ", s.as_str()),
            PluginError::DefaultCommandEmpty(s) => joined(
                "default plugin command must not be empty: ",
                s.as_str(),
            ),
            PluginError::FloatMustBeFinite => String::from_str("plugin setting float must be finite"),
            PluginError::NonFiniteFloat => String::from_str(
                "plugin setting contains non-finite float",
            ),
            PluginError::PathPlaceholderWithoutPath(s) => joined(
                "path placeholder requires request path: ",
                s.as_str(),
            ),
            PluginError::UnknownPlaceholder(s) => joined(
                "unknown placeholder in plugin command: ",
                s.as_str(),
            ),
            PluginError::UnsupportedTrigger(s) => joined("unsupported plugin trigger: ", s.as_str()),
            PluginError::NotManual(s) => joined("plugin is not manual: ", s.as_str()),
            PluginError::TaskNotFound(s) => joined("task not found: ", s.as_str()),
            PluginError::StepPluginNotFound(s) => joined(
                "plugin not found for task step: ",
                s.as_str(),
            ),
            PluginError::DependencyCycle(s) => joined(
                "plugin dependency cycle detected at ",
                s.as_str(),
            ),
        }
    }
}

/// The texts of a list of replacement pairs.
pub open spec fn pair_views(v: Seq<(String, String)>) -> Seq<(Seq<char>, Seq<char>)> {
    v.map_values(|p: (String, String)| (p.0@, p.1@))
}

/// `s` with each pair's pattern replaced by its text, one pair after the
/// other.
pub open spec fn apply_replacements(s: Seq<char>, pairs: Seq<(Seq<char>, Seq<char>)>) -> Seq<char>
    decreases pairs.len(),
{
    if pairs.len() == 0 {
        s
    } else {
        apply_replacements(replace_all(s, pairs[0].0, pairs[0].1), pairs.drop_first())
    }
}

/// Text in which no pattern occurs is left as it is.
pub proof fn lemma_replacements_absent(s: Seq<char>, pairs: Seq<(Seq<char>, Seq<char>)>)
    requires
        forall|k: int| 0 <= k < pairs.len() ==> !contains_seq(s, (#[trigger] pairs[k]).0),
    ensures
        apply_replacements(s, pairs) == s,
    decreases pairs.len(),
{
    if pairs.len() > 0 {
        lemma_replace_absent(s, pairs[0].0, pairs[0].1);
        assert forall|k: int| 0 <= k < pairs.drop_first().len() implies !contains_seq(
            s,
            (#[trigger] pairs.drop_first()[k]).0,
        ) by {
            assert(pairs.drop_first()[k] == pairs[k + 1]);
        }
        lemma_replacements_absent(s, pairs.drop_first());
    }
}

/// Applying two lists of pairs one after the other is applying the list
/// they make together.
pub proof fn lemma_replacements_append(
    s: Seq<char>,
    a: Seq<(Seq<char>, Seq<char>)>,
    b: Seq<(Seq<char>, Seq<char>)>,
)
    ensures
        apply_replacements(s, a + b) == apply_replacements(apply_replacements(s, a), b),
    decreases a.len(),
{
    if a.len() > 0 {
        assert((a + b).drop_first() =~= a.drop_first() + b);
        assert((a + b)[0] == a[0]);
        lemma_replacements_append(replace_all(s, a[0].0, a[0].1), a.drop_first(), b);
    } else {
        assert(a + b =~= b);
    }
}

/// A pattern that opens with `{` does not occur in a text without `{`.
pub proof fn lemma_brace_pattern_absent(v: Seq<char>, p: Seq<char>)
    requires
        !v.contains('{'),
        p.len() > 0,
        p[0] == '{',
    ensures
        !contains_seq(v, p),
{
    if contains_seq(v, p) {
        let i = choose|i: int| occurs_at(v, p, i);
        assert(v.subrange(i, i + p.len())[0] == v[i]);
        assert(v.contains(v[i]));
    }
}

/// A text that opens with its only `{` and closes with its only `}` holds
/// no other text that opens with `{` and closes with `}`.
pub proof fn lemma_braced_holds_only_itself(t: Seq<char>, p: Seq<char>)
    requires
        t.len() >= 2,
        forall|j: int| 0 <= j < t.len() ==> (#[trigger] t[j] == '{' <==> j == 0),
        forall|j: int| 0 <= j < t.len() ==> (#[trigger] t[j] == '}' <==> j == t.len() - 1),
        p.len() >= 2,
        p[0] == '{',
        p[p.len() - 1] == '}',
        contains_seq(t, p),
    ensures
        p == t,
{
    let i = choose|i: int| occurs_at(t, p, i);
    let w = t.subrange(i, i + p.len());
    assert(w[0] == t[i]);
    assert(w[p.len() - 1] == t[i + p.len() - 1]);
    assert(i == 0);
    assert(p.len() == t.len());
    assert(t.subrange(0, t.len() as int) =~= t);
}

/// Replacing a whole text by its own pattern gives the replacement.
pub proof fn lemma_replace_whole(t: Seq<char>, v: Seq<char>)
    requires
        t.len() > 0,
    ensures
        replace_all(t, t, v) == v,
{
    assert(t.subrange(0, t.len() as int) =~= t);
    assert(t.skip(t.len() as int) =~= Seq::<char>::empty());
    assert(replace_all(Seq::<char>::empty(), t, v) == Seq::<char>::empty());
    assert(v + Seq::<char>::empty() =~= v);
}

/// The text of `{DEFAULT_PLUGINS_ROOT}`: it opens with its only `{` and
/// closes with its only `}`.
pub proof fn lemma_default_root_pattern()
    ensures
        ({
            let t = "{DEFAULT_PLUGINS_ROOT}"@;
            &&& t.len() == 22
            &&& forall|j: int| 0 <= j < t.len() ==> (#[trigger] t[j] == '{' <==> j == 0)
            &&& forall|j: int| 0 <= j < t.len() ==> (#[trigger] t[j] == '}' <==> j == t.len() - 1)
        }),
{
    reveal_strlit("{DEFAULT_PLUGINS_ROOT}");
    let t = "{DEFAULT_PLUGINS_ROOT}"@;
    assert(t =~= seq![
        '{', 'D', 'E', 'F', 'A', 'U', 'L', 'T', '_', 'P', 'L', 'U', 'G', 'I', 'N', 'S', '_', 'R',
        'O', 'O', 'T', '}',
    ]);
}

/// Whether every pattern of `pairs` is non-empty.
pub open spec fn patterns_nonempty(pairs: Seq<(Seq<char>, Seq<char>)>) -> bool {
    forall|k: int| 0 <= k < pairs.len() ==> (#[trigger] pairs[k]).0.len() > 0
}

/// Applies the replacement pairs to `s`, in order.
pub fn replace_each(s: &str, pairs: &Vec<(String, String)>) -> (r: String)
    requires
        patterns_nonempty(pair_views(pairs@)),
    ensures
        r@ == apply_replacements(s@, pair_views(pairs@)),
{
    let ghost pv = pair_views(pairs@);
    let mut value = String::from_str(s);
    let mut i: usize = 0;
    assert(pv.skip(0) =~= pv);
    while i < pairs.len()
        invariant
            pv == pair_views(pairs@),
            patterns_nonempty(pv),
            i <= pairs@.len(),
            apply_replacements(s@, pv) == apply_replacements(value@, pv.skip(i as int)),
        decreases pairs@.len() - i,
    {
        assert(pv[i as int] == (pairs@[i as int].0@, pairs@[i as int].1@));
        assert(pv.skip(i as int).drop_first() =~= pv.skip(i + 1));
        value = replace_text(value.as_str(), pairs[i].0.as_str(), pairs[i].1.as_str());
        i = i + 1;
    }
    value
}

/// One plugin listed by the bundled default plugin configuration.
#[derive(Debug)]
pub struct DefaultPluginDefinition {
    pub name: String,
    pub command: Vec<String>,
}

/// The index of the first definition named `name` at or after `i`.
pub open spec fn first_definition(defs: Seq<DefaultPluginDefinition>, name: Seq<char>, i: int) -> Option<int>
    decreases defs.len() - i,
{
    if i < 0 || i >= defs.len() {
        None
    } else if defs[i].name@ == name {
        Some(i)
    } else {
        first_definition(defs, name, i + 1)
    }
}

/// The command of the default plugin `name`.
pub open spec fn spec_default_command(name: Seq<char>, defs: Seq<DefaultPluginDefinition>) -> Result<
    Seq<String>,
    PluginErrorView,
> {
    match first_definition(defs, name, 0) {
        None => Err(PluginErrorView::DefaultPluginNotFound(name)),
        Some(k) => if defs[k].command@.len() == 0 {
            Err(PluginErrorView::DefaultCommandEmpty(name))
        } else {
            Ok(defs[k].command@)
        },
    }
}

/// The command line of a plugin: its own command for the `command`
/// runner, the bundled definition for the `default` runner.
pub open spec fn spec_plugin_command(
    runner: Seq<char>,
    name: Seq<char>,
    command: Seq<String>,
    defs: Seq<DefaultPluginDefinition>,
) -> Result<Seq<String>, PluginErrorView> {
    if runner == "command"@ {
        Ok(command)
    } else if runner == "default"@ {
        spec_default_command(name, defs)
    } else {
        Err(PluginErrorView::UnsupportedRunner(runner))
    }
}

/// A copy of a list of strings that is equal to it.
pub fn copy_strings(v: &Vec<String>) -> (r: Vec<String>)
    ensures
        r@ == v@,
{
    let mut out: Vec<String> = Vec::new();
    let mut i: usize = 0;
    while i < v.len()
        invariant
            i <= v@.len(),
            out@ == v@.subrange(0, i as int),
        decreases v@.len() - i,
    {
        out.push(v[i].clone());
        assert(out@ =~= v@.subrange(0, i + 1));
        i = i + 1;
    }
    assert(v@.subrange(0, v@.len() as int) =~= v@);
    out
}

/// The command of the default plugin `name` among `defs`.
pub fn resolve_default_plugin_command(name: &str, defs: &Vec<DefaultPluginDefinition>) -> (r: Result<
    Vec<String>,
    PluginError,
>)
    ensures
        match r {
            Ok(c) => spec_default_command(name@, defs@) == Ok::<Seq<String>, PluginErrorView>(c@),
            Err(e) => spec_default_command(name@, defs@) == Err::<Seq<String>, PluginErrorView>(e@),
        },
{
    let mut i: usize = 0;
    while i < defs.len()
        invariant
            i <= defs@.len(),
            first_definition(defs@, name@, 0) == first_definition(defs@, name@, i as int),
        decreases defs@.len() - i,
    {
        if same_text(defs[i].name.as_str(), name) {
            if defs[i].command.len() == 0 {
                return Err(PluginError::DefaultCommandEmpty(String::from_str(name)));
            }
            return Ok(copy_strings(&defs[i].command));
        }
        i = i + 1;
    }
    Err(PluginError::DefaultPluginNotFound(String::from_str(name)))
}

/// The command line of a plugin with the given runner, name and command.
pub fn resolve_plugin_command(
    runner: &str,
    name: &str,
    command: &Vec<String>,
    defs: &Vec<DefaultPluginDefinition>,
) -> (r: Result<Vec<String>, PluginError>)
    ensures
        match r {
            Ok(c) => spec_plugin_command(runner@, name@, command@, defs@) == Ok::<
                Seq<String>,
                PluginErrorView,
            >(c@),
            Err(e) => spec_plugin_command(runner@, name@, command@, defs@) == Err::<
                Seq<String>,
                PluginErrorView,
            >(e@),
        },
{
    if same_text(runner, "command") {
        Ok(copy_strings(command))
    } else if same_text(runner, "default") {
        resolve_default_plugin_command(name, defs)
    } else {
        Err(PluginError::UnsupportedRunner(String::from_str(runner)))
    }
}

/// A process to start for a plugin run.
#[derive(Debug)]
pub struct PluginInvocation {
    pub program: String,
    pub args: Vec<String>,
    pub current_dir: String,
    /// Environment variables; the settings are passed besides them as
    /// `WORKSPACE_FS_PLUGIN_SETTINGS_JSON`.
    pub env: Vec<(String, String)>,
    pub settings: Vec<(String, SettingValue)>,
}

/// The expansions of `items[i..]`, or the first error met.
pub open spec fn expand_all<X: SettingExpander>(x: X, items: Seq<String>, i: int) -> Result<
    Seq<Seq<char>>,
    PluginErrorView,
>
    decreases items.len() - i,
{
    if i < 0 || i >= items.len() {
        Ok(Seq::empty())
    } else {
        match x.spec_expand(items[i]@) {
            Err(e) => Err(e),
            Ok(t) => match expand_all(x, items, i + 1) {
                Err(e) => Err(e),
                Ok(rest) => Ok(seq![t] + rest),
            },
        }
    }
}

/// Expands `items[from..]` in order; fails with the first error.
pub fn expand_items<X: SettingExpander>(x: &X, items: &Vec<String>, from: usize) -> (r: Result<
    Vec<String>,
    PluginError,
>)
    requires
        from <= items@.len(),
    ensures
        match r {
            Ok(out) => expand_all(*x, items@, from as int) == Ok::<Seq<Seq<char>>, PluginErrorView>(
                out@.map_values(|s: String| s@),
            ) && out@.len() == items@.len() - from,
            Err(e) => expand_all(*x, items@, from as int) == Err::<Seq<Seq<char>>, PluginErrorView>(
                e@,
            ),
        },
    decreases items@.len() - from,
{
    if from == items.len() {
        let out: Vec<String> = Vec::new();
        assert(out@.map_values(|s: String| s@) =~= Seq::<Seq<char>>::empty());
        return Ok(out);
    }
    let t = match x.expand(items[from].as_str()) {
        Ok(t) => t,
        Err(e) => {
            return Err(e);
        },
    };
    let rest = match expand_items(x, items, from + 1) {
        Ok(rest) => rest,
        Err(e) => {
            return Err(e);
        },
    };
    let mut out: Vec<String> = Vec::new();
    out.push(t);
    let mut k: usize = 0;
    let ghost rv = rest@.map_values(|s: String| s@);
    while k < rest.len()
        invariant
            k <= rest@.len(),
            rv == rest@.map_values(|s: String| s@),
            out@.map_values(|s: String| s@) == seq![t@] + rv.subrange(0, k as int),
        decreases rest@.len() - k,
    {
        let ghost before = out@;
        out.push(rest[k].clone());
        assert(out@.map_values(|s: String| s@) =~= before.map_values(|s: String| s@).push(rv[k as int]));
        assert(rv.subrange(0, k + 1) =~= rv.subrange(0, k as int).push(rv[k as int]));
        assert(seq![t@] + rv.subrange(0, k + 1) =~= (seq![t@] + rv.subrange(0, k as int)).push(rv[k as int]));
        k = k + 1;
    }
    assert(rv.subrange(0, rest@.len() as int) =~= rv);
    Ok(out)
}

} // verus!
