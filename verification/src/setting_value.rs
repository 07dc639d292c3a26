//! Plugin-specific settings and their resolution.
//!
//! A plugin entry of the repository configuration may carry arbitrary extra
//! keys. They are kept as a [`SettingValue`] tree; before a plugin runs,
//! every string in the tree has its placeholders expanded, and the resolved
//! tree is handed to the plugin as JSON.
use vstd::prelude::*;

use crate::plugins::{PluginError, PluginErrorView};
use crate::text::{entry_keys, keys_ordered};

verus! {

/// A configuration value. Floats are kept as their IEEE-754 bit pattern;
/// dates keep the text they were written with.
#[derive(Debug)]
pub enum SettingValue {
    String(String),
    Integer(i64),
    Float(u64),
    Boolean(bool),
    Datetime(String),
    Array(Vec<SettingValue>),
    Table(Vec<(String, SettingValue)>),
}

/// Whether the float with bit pattern `bits` is finite (its exponent field
/// is not all ones).
pub open spec fn float_bits_finite(bits: u64) -> bool {
    (bits as int / 0x10_0000_0000_0000) % 0x800 != 0x7ff
}

/// Whether the float with bit pattern `bits` is finite.
pub fn is_finite_bits(bits: u64) -> (r: bool)
    ensures
        r == float_bits_finite(bits),
{
    (bits / 0x10_0000_0000_0000) % 0x800 != 0x7ff
}

/// What expands the placeholders of the strings in a settings tree, and the
/// error a non-finite float raises.
pub trait SettingExpander {
    spec fn spec_expand(&self, s: Seq<char>) -> Result<Seq<char>, PluginErrorView>;

    spec fn spec_float_error(&self) -> PluginErrorView;

    fn expand(&self, s: &str) -> (r: Result<String, PluginError>)
        ensures
            match r {
                Ok(t) => self.spec_expand(s@) == Ok::<Seq<char>, PluginErrorView>(t@),
                Err(e) => self.spec_expand(s@) == Err::<Seq<char>, PluginErrorView>(e@),
            };

    fn float_error(&self) -> (e: PluginError)
        ensures
            e@ == self.spec_float_error();
}

/// The first error met when resolving `v`, visiting the tree in order.
pub open spec fn first_error<X: SettingExpander>(x: X, v: SettingValue) -> Option<PluginErrorView>
    decreases v, 0int,
{
    match v {
        SettingValue::String(s) => match x.spec_expand(s@) {
            Ok(_) => None,
            Err(e) => Some(e),
        },
        SettingValue::Float(bits) => if float_bits_finite(bits) {
            None
        } else {
            Some(x.spec_float_error())
        },
        SettingValue::Array(items) => first_error_items(x, items@, 0),
        SettingValue::Table(entries) => first_error_entries(x, entries@, 0),
        _ => None,
    }
}

/// The first error among `items[i..]`.
pub open spec fn first_error_items<X: SettingExpander>(
    x: X,
    items: Seq<SettingValue>,
    i: int,
) -> Option<PluginErrorView>
    decreases items, items.len() - i,
{
    if 0 <= i < items.len() {
        match first_error(x, items[i]) {
            Some(e) => Some(e),
            None => first_error_items(x, items, i + 1),
        }
    } else {
        None
    }
}

/// The first error among the values of `entries[i..]`.
pub open spec fn first_error_entries<X: SettingExpander>(
    x: X,
    entries: Seq<(String, SettingValue)>,
    i: int,
) -> Option<PluginErrorView>
    decreases entries, entries.len() - i,
{
    if 0 <= i < entries.len() {
        match first_error(x, entries[i].1) {
            Some(e) => Some(e),
            None => first_error_entries(x, entries, i + 1),
        }
    } else {
        None
    }
}

/// `r` is `v` with every string expanded and everything else kept.
pub open spec fn resolves_to<X: SettingExpander>(x: X, v: SettingValue, r: SettingValue) -> bool
    decreases v, 0int,
{
    match v {
        SettingValue::String(s) => r matches SettingValue::String(t) && x.spec_expand(s@) == Ok::<
            Seq<char>,
            PluginErrorView,
        >(t@),
        SettingValue::Integer(n) => r == SettingValue::Integer(n),
        SettingValue::Float(bits) => r == SettingValue::Float(bits),
        SettingValue::Boolean(b) => r == SettingValue::Boolean(b),
        SettingValue::Datetime(d) => r matches SettingValue::Datetime(e) && e@ == d@,
        SettingValue::Array(items) => r matches SettingValue::Array(out) && items_resolve(
            x,
            items@,
            out@,
            0,
        ),
        SettingValue::Table(entries) => r matches SettingValue::Table(out) && entries_resolve(
            x,
            entries@,
            out@,
            0,
        ),
    }
}

/// `out[i..]` resolves `items[i..]` element by element.
pub open spec fn items_resolve<X: SettingExpander>(
    x: X,
    items: Seq<SettingValue>,
    out: Seq<SettingValue>,
    i: int,
) -> bool
    decreases items, items.len() - i,
{
    if 0 <= i < items.len() {
        out.len() == items.len() && resolves_to(x, items[i], out[i]) && items_resolve(
            x,
            items,
            out,
            i + 1,
        )
    } else {
        out.len() == items.len()
    }
}

/// `out[i..]` keeps the keys of `entries[i..]` and resolves their values.
pub open spec fn entries_resolve<X: SettingExpander>(
    x: X,
    entries: Seq<(String, SettingValue)>,
    out: Seq<(String, SettingValue)>,
    i: int,
) -> bool
    decreases entries, entries.len() - i,
{
    if 0 <= i < entries.len() {
        out.len() == entries.len() && out[i].0@ == entries[i].0@ && resolves_to(
            x,
            entries[i].1,
            out[i].1,
        ) && entries_resolve(x, entries, out, i + 1)
    } else {
        out.len() == entries.len()
    }
}

/// Resolving entries keeps their keys, in order.
pub proof fn lemma_entries_resolve_keys<X: SettingExpander>(
    x: X,
    entries: Seq<(String, SettingValue)>,
    out: Seq<(String, SettingValue)>,
    i: int,
)
    requires
        0 <= i,
        entries_resolve(x, entries, out, i),
    ensures
        out.len() == entries.len(),
        forall|k: int| i <= k < entries.len() ==> (#[trigger] out[k]).0@ == entries[k].0@,
    decreases entries.len() - i,
{
    if i < entries.len() {
        lemma_entries_resolve_keys(x, entries, out, i + 1);
    }
}

/// Resolving the entries of an ordered map gives an ordered map.
pub proof fn lemma_entries_resolve_ordered<X: SettingExpander>(
    x: X,
    entries: Seq<(String, SettingValue)>,
    out: Seq<(String, SettingValue)>,
)
    requires
        keys_ordered(entry_keys(entries)),
        entries_resolve(x, entries, out, 0),
    ensures
        keys_ordered(entry_keys(out)),
{
    lemma_entries_resolve_keys(x, entries, out, 0);
    assert(entry_keys(out) =~= entry_keys(entries));
}

/// Expands the placeholders of every string in `v`; fails with the first
/// error met in order.
pub fn resolve_setting_value<X: SettingExpander>(x: &X, v: &SettingValue) -> (r: Result<
    SettingValue,
    PluginError,
>)
    ensures
        match r {
            Ok(out) => first_error(*x, *v) is None && resolves_to(*x, *v, out),
            Err(e) => first_error(*x, *v) == Some(e@),
        },
    decreases v, 0int,
{
    match v {
        SettingValue::String(s) => match x.expand(s.as_str()) {
            Ok(t) => Ok(SettingValue::String(t)),
            Err(e) => Err(e),
        },
        SettingValue::Integer(n) => Ok(SettingValue::Integer(*n)),
        SettingValue::Float(bits) => {
            if is_finite_bits(*bits) {
                Ok(SettingValue::Float(*bits))
            } else {
                Err(x.float_error())
            }
        },
        SettingValue::Boolean(b) => Ok(SettingValue::Boolean(*b)),
        SettingValue::Datetime(d) => Ok(SettingValue::Datetime(d.clone())),
        SettingValue::Array(items) => {
            let out = resolve_items(x, items)?;
            Ok(SettingValue::Array(out))
        },
        SettingValue::Table(entries) => {
            let out = resolve_entries(x, entries)?;
            Ok(SettingValue::Table(out))
        },
    }
}

/// Resolves every element of `items`, in order.
pub fn resolve_items<X: SettingExpander>(x: &X, items: &Vec<SettingValue>) -> (r: Result<
    Vec<SettingValue>,
    PluginError,
>)
    ensures
        match r {
            Ok(out) => first_error_items(*x, items@, 0) is None && items_resolve(
                *x,
                items@,
                out@,
                0,
            ),
            Err(e) => first_error_items(*x, items@, 0) == Some(e@),
        },
    decreases items, 1int,
{
    let mut out: Vec<SettingValue> = Vec::new();
    let mut i: usize = 0;
    while i < items.len()
        invariant
            i <= items@.len(),
            out@.len() == i,
            first_error_items(*x, items@, 0) == first_error_items(*x, items@, i as int),
            forall|k: int| 0 <= k < i ==> resolves_to(*x, items@[k], #[trigger] out@[k]),
        decreases items@.len() - i,
    {
        assert(decreases_to!(items => items@[i as int]));
        let r = resolve_setting_value(x, &items[i]);
        match r {
            Ok(v) => {
                out.push(v);
            },
            Err(e) => {
                return Err(e);
            },
        }
        i = i + 1;
    }
    proof {
        lemma_items_resolve(*x, items@, out@, 0);
    }
    Ok(out)
}

/// Resolves the value of every entry of `entries`, in order, keeping keys.
pub fn resolve_entries<X: SettingExpander>(x: &X, entries: &Vec<(String, SettingValue)>) -> (r:
    Result<Vec<(String, SettingValue)>, PluginError>)
    ensures
        match r {
            Ok(out) => first_error_entries(*x, entries@, 0) is None && entries_resolve(
                *x,
                entries@,
                out@,
                0,
            ),
            Err(e) => first_error_entries(*x, entries@, 0) == Some(e@),
        },
    decreases entries, 1int,
{
    let mut out: Vec<(String, SettingValue)> = Vec::new();
    let mut i: usize = 0;
    while i < entries.len()
        invariant
            i <= entries@.len(),
            out@.len() == i,
            first_error_entries(*x, entries@, 0) == first_error_entries(*x, entries@, i as int),
            forall|k: int|
                0 <= k < i ==> (#[trigger] out@[k]).0@ == entries@[k].0@ && resolves_to(
                    *x,
                    entries@[k].1,
                    out@[k].1,
                ),
        decreases entries@.len() - i,
    {
        assert(decreases_to!(entries => entries@[i as int].1));
        let r = resolve_setting_value(x, &entries[i].1);
        match r {
            Ok(v) => {
                out.push((entries[i].0.clone(), v));
            },
            Err(e) => {
                return Err(e);
            },
        }
        i = i + 1;
    }
    proof {
        lemma_entries_resolve(*x, entries@, out@, 0);
    }
    Ok(out)
}

proof fn lemma_items_resolve<X: SettingExpander>(
    x: X,
    items: Seq<SettingValue>,
    out: Seq<SettingValue>,
    i: int,
)
    requires
        0 <= i <= items.len(),
        out.len() == items.len(),
        forall|k: int| 0 <= k < items.len() ==> resolves_to(x, items[k], #[trigger] out[k]),
    ensures
        items_resolve(x, items, out, i),
    decreases items.len() - i,
{
    if i < items.len() {
        lemma_items_resolve(x, items, out, i + 1);
    }
}

proof fn lemma_entries_resolve<X: SettingExpander>(
    x: X,
    entries: Seq<(String, SettingValue)>,
    out: Seq<(String, SettingValue)>,
    i: int,
)
    requires
        0 <= i <= entries.len(),
        out.len() == entries.len(),
        forall|k: int|
            0 <= k < entries.len() ==> (#[trigger] out[k]).0@ == entries[k].0@ && resolves_to(
                x,
                entries[k].1,
                out[k].1,
            ),
    ensures
        entries_resolve(x, entries, out, i),
    decreases entries.len() - i,
{
    if i < entries.len() {
        lemma_entries_resolve(x, entries, out, i + 1);
    }
}

} // verus!
