//! Choosing which policy rule governs a requested path.
//!
//! A rule matches a path when its own path is the root `.`, when it is a
//! directory rule the path lies under, or when it names exactly that path.
//! Among the matching rules the most specific one (the one with the most
//! components) is selected, and among equally specific rules the later one.
use vstd::prelude::*;

use crate::path::{components_start_with, WorkspacePath};
use crate::text::same_text;

verus! {

/// The HTTP methods a policy distinguishes.
#[derive(Debug, Clone, Copy, PartialEq, Eq, Structural)]
pub enum MethodKind {
    Get,
    Post,
    Put,
    Delete,
}

/// Why the selected rule won.
#[derive(Debug, Clone, Copy, PartialEq, Eq, Structural)]
pub enum SelectionReason {
    /// It was the first matching rule and no later one displaced it.
    FirstMatch,
    /// An earlier matching rule was as specific; the later one wins.
    LaterRule,
    /// Every earlier matching rule was less specific.
    MoreSpecific,
}

impl SelectionReason {
    /// The name under which the reason is reported.
    pub fn as_str(&self) -> (r: &'static str)
        ensures
            r@ == self.spec_name(),
    {
        match self {
            SelectionReason::FirstMatch => "first_match",
            SelectionReason::LaterRule => "later_rule",
            SelectionReason::MoreSpecific => "more_specific",
        }
    }

    pub open spec fn spec_name(&self) -> Seq<char> {
        match self {
            SelectionReason::FirstMatch => "first_match"@,
            SelectionReason::LaterRule => "later_rule"@,
            SelectionReason::MoreSpecific => "more_specific"@,
        }
    }
}

/// Whether a rule for `rule` applies to the requested path `req`.
pub open spec fn rule_matches(rule: WorkspacePath, req: WorkspacePath) -> bool {
    if rule.comps().len() == 0 {
        true
    } else if rule.dir() {
        components_start_with(req.comps(), rule.comps())
    } else {
        req.text() == rule.text()
    }
}

/// Which paths a rule covers: the root rule covers every path; a rule for
/// a directory covers that directory and every path below it, component
/// by component; a rule for a file covers only the path written the same.
pub proof fn lemma_rule_coverage(rule: WorkspacePath, req: WorkspacePath)
    ensures
        rule.comps().len() == 0 ==> rule_matches(rule, req),
        rule.comps().len() > 0 && rule.dir() ==> (rule_matches(rule, req) <==> (rule.comps().len()
            <= req.comps().len() && forall|i: int|
            0 <= i < rule.comps().len() ==> #[trigger] req.comps()[i] == rule.comps()[i])),
        rule.comps().len() > 0 && !rule.dir() ==> (rule_matches(rule, req) <==> req.text()
            == rule.text()),
{
    if rule.comps().len() > 0 && rule.dir() {
        let n = rule.comps().len() as int;
        if n <= req.comps().len() && forall|i: int|
            0 <= i < n ==> #[trigger] req.comps()[i] == rule.comps()[i] {
            assert(req.comps().subrange(0, n) =~= rule.comps());
        }
        if rule_matches(rule, req) {
            assert forall|i: int| 0 <= i < n implies #[trigger] req.comps()[i] == rule.comps()[i] by {
                assert(req.comps().subrange(0, n)[i] == req.comps()[i]);
            }
        }
    }
}

/// Index `k` is the rule that governs `req`: it matches, no matching rule
/// is more specific, and no later matching rule is as specific.
pub open spec fn is_selected(rules: Seq<WorkspacePath>, req: WorkspacePath, k: int) -> bool {
    &&& 0 <= k < rules.len()
    &&& rule_matches(rules[k], req)
    &&& forall|j: int|
        0 <= j < rules.len() && rule_matches(rules[j], req) ==> {
            ||| rules[j].comps().len() < rules[k].comps().len()
            ||| (rules[j].comps().len() == rules[k].comps().len() && j <= k)
        }
}

/// The reason reported for selecting rule `k`.
pub open spec fn selection_reason(rules: Seq<WorkspacePath>, req: WorkspacePath, k: int) -> SelectionReason {
    if forall|j: int| 0 <= j < k ==> !rule_matches(rules[j], req) {
        SelectionReason::FirstMatch
    } else if exists|j: int|
        0 <= j < k && rule_matches(rules[j], req) && rules[j].comps().len()
            == rules[k].comps().len() {
        SelectionReason::LaterRule
    } else {
        SelectionReason::MoreSpecific
    }
}

/// The matching rules, in order, and the selected one.
pub struct RuleSelection {
    pub matches: Vec<usize>,
    pub selected: Option<(usize, SelectionReason)>,
}

/// The selection of rules among `rules` for the requested path `req`.
pub open spec fn selection_matches(rules: Seq<WorkspacePath>, req: WorkspacePath, s: RuleSelection) -> bool {
    &&& forall|i: int| 0 <= i < s.matches@.len() ==> 0 <= #[trigger] s.matches@[i] < rules.len()
        && rule_matches(rules[s.matches@[i] as int], req)
    &&& forall|i: int, j: int| 0 <= i < j < s.matches@.len() ==> s.matches@[i] < s.matches@[j]
    &&& forall|k: int|
        0 <= k < rules.len() && rule_matches(rules[k], req) ==> s.matches@.contains(k as usize)
    &&& match s.selected {
        None => forall|k: int| 0 <= k < rules.len() ==> !rule_matches(rules[k], req),
        Some((k, reason)) => is_selected(rules, req, k as int) && reason == selection_reason(
            rules,
            req,
            k as int,
        ),
    }
}

/// Whether the rule path `rule` applies to `req`.
pub fn policy_matches(rule: &WorkspacePath, req: &WorkspacePath) -> (r: bool)
    ensures
        r == rule_matches(*rule, *req),
{
    if rule.depth() == 0 {
        return true;
    }
    if rule.is_directory() {
        req.starts_with(rule)
    } else {
        same_text(req.as_str(), rule.as_str())
    }
}

/// Finds the matching rules and selects the governing one.
pub fn select_rule(rules: &Vec<WorkspacePath>, req: &WorkspacePath) -> (s: RuleSelection)
    ensures
        selection_matches(rules@, *req, s),
{
    let mut matches: Vec<usize> = Vec::new();
    let mut selected: Option<(usize, SelectionReason)> = None;
    let mut i: usize = 0;
    while i < rules.len()
        invariant
            i <= rules@.len(),
            forall|m: int| 0 <= m < matches@.len() ==> 0 <= #[trigger] matches@[m] < i
                && rule_matches(rules@[matches@[m] as int], *req),
            forall|a: int, b: int| 0 <= a < b < matches@.len() ==> matches@[a] < matches@[b],
            forall|k: int| 0 <= k < i && rule_matches(rules@[k], *req) ==> matches@.contains(
                k as usize,
            ),
            match selected {
                None => forall|k: int| 0 <= k < i ==> !rule_matches(rules@[k], *req),
                Some((k, reason)) => is_selected(rules@.subrange(0, i as int), *req, k as int)
                    && reason == selection_reason(rules@, *req, k as int),
            },
        decreases rules@.len() - i,
    {
        let ghost prefix = rules@.subrange(0, i as int);
        let ghost next = rules@.subrange(0, i + 1);
        if policy_matches(&rules[i], req) {
            let depth = rules[i].depth();
            match selected {
                None => {
                    selected = Some((i, SelectionReason::FirstMatch));
                    assert(is_selected(next, *req, i as int)) by {
                        assert forall|j: int|
                            0 <= j < next.len() && rule_matches(next[j], *req) implies {
                            ||| next[j].comps().len() < next[i as int].comps().len()
                            ||| (next[j].comps().len() == next[i as int].comps().len() && j <= i)
                        } by {
                            if j < i {
                                assert(next[j] == rules@[j]);
                            }
                        }
                    }
                },
                Some((k, reason)) => {
                    let best_depth = rules[k].depth();
                    assert(prefix[k as int] == rules@[k as int]);
                    if best_depth <= depth {
                        let new_reason = if best_depth == depth {
                            SelectionReason::LaterRule
                        } else {
                            SelectionReason::MoreSpecific
                        };
                        proof {
                            assert(is_selected(next, *req, i as int)) by {
                                assert forall|j: int|
                                    0 <= j < next.len() && rule_matches(next[j], *req) implies {
                                    ||| next[j].comps().len() < next[i as int].comps().len()
                                    ||| (next[j].comps().len() == next[i as int].comps().len()
                                        && j <= i)
                                } by {
                                    if j < i {
                                        assert(next[j] == prefix[j]);
                                    }
                                }
                            }
                            assert(!(forall|j: int|
                                0 <= j < i ==> !rule_matches(rules@[j], *req))) by {
                                assert(rule_matches(rules@[k as int], *req));
                            }
                            if best_depth == depth {
                                assert(0 <= k < i && rule_matches(rules@[k as int], *req)
                                    && rules@[k as int].comps().len() == rules@[i as int].comps().len());
                            } else {
                                assert(!exists|j: int|
                                    0 <= j < i && rule_matches(rules@[j], *req)
                                        && rules@[j].comps().len() == rules@[i as int].comps().len())
                                    by {
                                    assert forall|j: int|
                                        0 <= j < i && rule_matches(rules@[j], *req) implies rules@[j].comps().len()
                                        < rules@[i as int].comps().len() by {
                                        assert(prefix[j] == rules@[j]);
                                    }
                                }
                            }
                        }
                        selected = Some((i, new_reason));
                    } else {
                        assert(is_selected(next, *req, k as int)) by {
                            assert forall|j: int|
                                0 <= j < next.len() && rule_matches(next[j], *req) implies {
                                ||| next[j].comps().len() < next[k as int].comps().len()
                                ||| (next[j].comps().len() == next[k as int].comps().len() && j
                                    <= k)
                            } by {
                                if j < i {
                                    assert(next[j] == prefix[j]);
                                }
                            }
                        }
                    }
                },
            }
            let ghost old_matches = matches@;
            matches.push(i);
            assert forall|k: int|
                0 <= k < i + 1 && rule_matches(rules@[k], *req) implies matches@.contains(
                k as usize,
            ) by {
                if k < i {
                    let m = choose|m: int| 0 <= m < old_matches.len() && old_matches[m] == k as usize;
                    assert(matches@[m] == k as usize);
                } else {
                    assert(matches@[old_matches.len() as int] == i);
                }
            }
        } else {
            match selected {
                None => {},
                Some((k, reason)) => {
                    assert(is_selected(next, *req, k as int)) by {
                        assert forall|j: int|
                            0 <= j < next.len() && rule_matches(next[j], *req) implies {
                            ||| next[j].comps().len() < next[k as int].comps().len()
                            ||| (next[j].comps().len() == next[k as int].comps().len() && j <= k)
                        } by {
                            if j < i {
                                assert(next[j] == prefix[j]);
                            }
                        }
                    }
                },
            }
        }
        i = i + 1;
    }
    assert(rules@.subrange(0, rules@.len() as int) =~= rules@);
    RuleSelection { matches, selected }
}

/// At most one rule governs a path: the most specific matching rule, and
/// among equally specific ones the last.
pub proof fn lemma_selection_unique(rules: Seq<WorkspacePath>, req: WorkspacePath)
    ensures
        forall|a: int, b: int| is_selected(rules, req, a) && is_selected(rules, req, b) ==> a == b,
{
}

} // verus!
