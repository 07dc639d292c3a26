//! Inspecting and resolving the per-method rules of the hook-running
//! server.
use vstd::prelude::*;

use crate::hooks::config::{Policy, PolicyPermissions};
use crate::path::WorkspacePath;
use crate::policy::{
    is_selected, lemma_selection_unique, select_rule, selection_matches, MethodKind, RuleSelection,
    SelectionReason,
};

verus! {

impl PolicyPermissions {
    /// Whether the permissions allow `method`.
    pub open spec fn allows(self, method: MethodKind) -> bool {
        match method {
            MethodKind::Get => self.get,
            MethodKind::Post => self.post,
            MethodKind::Put => self.put,
            MethodKind::Delete => self.delete,
        }
    }
}

/// A rule that matched the inspected path.
#[derive(Debug)]
pub struct PolicyMatchInfo {
    pub index: usize,
    pub path: WorkspacePath,
    pub depth: usize,
    pub permissions: PolicyPermissions,
}

/// The rule that governs the inspected path and why.
#[derive(Debug)]
pub struct SelectedPolicyInfo {
    pub index: usize,
    pub path: WorkspacePath,
    pub reason: SelectionReason,
}

/// Everything known about how the rules apply to one path.
#[derive(Debug)]
pub struct PolicyInspection {
    pub path: WorkspacePath,
    pub matches: Vec<PolicyMatchInfo>,
    pub selected: Option<SelectedPolicyInfo>,
    pub effective: PolicyPermissions,
}

/// The rule paths.
pub open spec fn rule_paths(rules: Seq<Policy>) -> Seq<WorkspacePath> {
    rules.map_values(|p: Policy| p.path)
}

/// The inspection describes the rules `rules` applied to `path`.
pub open spec fn inspection_describes(rules: Seq<Policy>, path: WorkspacePath, r: PolicyInspection) -> bool {
    &&& r.path@ == path@
    &&& exists|sel: RuleSelection| {
        &&& selection_matches(rule_paths(rules), path, sel)
        &&& r.matches@.len() == sel.matches@.len()
        &&& forall|m: int|
            0 <= m < r.matches@.len() ==> {
                let k = #[trigger] sel.matches@[m] as int;
                &&& r.matches@[m].index == k
                &&& r.matches@[m].path@ == rules[k].path@
                &&& r.matches@[m].depth == rules[k].path.comps().len()
                &&& r.matches@[m].permissions == rules[k].permissions
            }
        &&& match sel.selected {
            None => r.selected is None && r.effective == PolicyPermissions::deny_all_spec(),
            Some((k, reason)) => r.selected matches Some(s) && s.index == k && s.path@
                == rules[k as int].path@ && s.reason == reason && r.effective == rules[k as int].permissions,
        }
    }
}

/// What an inspection reports: the matching rules in ascending order, each
/// matching rule once; no selected rule exactly when nothing matches;
/// otherwise the rule that governs the path (the most specific, and among
/// equally specific ones the last), reported as the first match exactly
/// when it is the first matching rule, with its permissions as the
/// effective ones; and every method denied when nothing matches.
pub proof fn lemma_inspection_facts(rules: Seq<Policy>, path: WorkspacePath, r: PolicyInspection)
    requires
        rules.len() <= usize::MAX,
        inspection_describes(rules, path, r),
    ensures
        forall|m: int|
            0 <= m < r.matches@.len() ==> (#[trigger] r.matches@[m]).index < rules.len()
                && crate::policy::rule_matches(rules[r.matches@[m].index as int].path, path),
        forall|a: int, b: int|
            0 <= a < b < r.matches@.len() ==> (#[trigger] r.matches@[a]).index
                < (#[trigger] r.matches@[b]).index,
        forall|k: int|
            0 <= k < rules.len() && crate::policy::rule_matches(rules[k].path, path) ==> exists|m: int|
                0 <= m < r.matches@.len() && (#[trigger] r.matches@[m]).index == k,
        r.selected is None <==> r.matches@.len() == 0,
        r.selected is None ==> r.effective == PolicyPermissions::deny_all_spec(),
        r.selected matches Some(s) ==> is_selected(rule_paths(rules), path, s.index as int)
            && r.effective == rules[s.index as int].permissions && (s.reason
            == SelectionReason::FirstMatch <==> s.index == r.matches@[0].index),
{
    let sel = choose|sel: RuleSelection| {
        &&& selection_matches(rule_paths(rules), path, sel)
        &&& r.matches@.len() == sel.matches@.len()
        &&& forall|m: int|
            0 <= m < r.matches@.len() ==> {
                let k = #[trigger] sel.matches@[m] as int;
                &&& r.matches@[m].index == k
                &&& r.matches@[m].path@ == rules[k].path@
                &&& r.matches@[m].depth == rules[k].path.comps().len()
                &&& r.matches@[m].permissions == rules[k].permissions
            }
        &&& match sel.selected {
            None => r.selected is None && r.effective == PolicyPermissions::deny_all_spec(),
            Some((k, reason)) => r.selected matches Some(s) && s.index == k && s.path@
                == rules[k as int].path@ && s.reason == reason && r.effective == rules[k as int].permissions,
        }
    };
    let ps = rule_paths(rules);
    assert forall|m: int| 0 <= m < r.matches@.len() implies (#[trigger] r.matches@[m]).index
        < rules.len() && crate::policy::rule_matches(rules[r.matches@[m].index as int].path, path) by {
        assert(sel.matches@[m] as int == r.matches@[m].index);
        assert(ps[sel.matches@[m] as int] == rules[sel.matches@[m] as int].path);
    }
    assert forall|a: int, b: int| 0 <= a < b < r.matches@.len() implies (
    #[trigger] r.matches@[a]).index < (#[trigger] r.matches@[b]).index by {
        assert(sel.matches@[a] as int == r.matches@[a].index);
        assert(sel.matches@[b] as int == r.matches@[b].index);
    }
    assert forall|k: int|
        0 <= k < rules.len() && crate::policy::rule_matches(rules[k].path, path) implies exists|m: int|
        0 <= m < r.matches@.len() && (#[trigger] r.matches@[m]).index == k by {
        assert(ps[k] == rules[k].path);
        assert(sel.matches@.contains(k as usize));
        let m = choose|m: int| 0 <= m < sel.matches@.len() && sel.matches@[m] == k as usize;
        assert(sel.matches@[m] as int == r.matches@[m].index);
        assert(r.matches@[m].index == k);
    }
    match sel.selected {
        None => {
            if r.matches@.len() > 0 {
                assert(sel.matches@[0] as int == r.matches@[0].index);
                assert(crate::policy::rule_matches(ps[sel.matches@[0] as int], path));
            }
        },
        Some((k, reason)) => {
            assert(sel.matches@.contains(k));
            let p = choose|p: int| 0 <= p < sel.matches@.len() && sel.matches@[p] == k;
            assert(r.matches@.len() > 0);
            assert(sel.matches@[0] as int == r.matches@[0].index);
            let first = sel.matches@[0] as int;
            if reason == SelectionReason::FirstMatch {
                if p > 0 {
                    assert(sel.matches@[0] < sel.matches@[p]);
                    assert(crate::policy::rule_matches(ps[first], path));
                    assert(!crate::policy::rule_matches(ps[first], path));
                }
            }
            if first == k as int {
                assert forall|j: int| 0 <= j < k implies !crate::policy::rule_matches(ps[j], path) by {
                    if crate::policy::rule_matches(ps[j], path) {
                        assert(sel.matches@.contains(j as usize));
                        let q = choose|q: int| 0 <= q < sel.matches@.len() && sel.matches@[q] == j as usize;
                        if q > 0 {
                            assert(sel.matches@[0] < sel.matches@[q]);
                        }
                    }
                }
            }
        },
    }
}

/// Reports which rules match `path`, which one is selected, and the
/// permissions that follow.
pub fn inspect_policy_rules(rules: &Vec<Policy>, path: &WorkspacePath) -> (r: PolicyInspection)
    ensures
        inspection_describes(rules@, *path, r),
{
    let mut paths: Vec<WorkspacePath> = Vec::new();
    let mut i: usize = 0;
    while i < rules.len()
        invariant
            i <= rules@.len(),
            paths@.len() == i,
            forall|k: int| 0 <= k < i ==> paths@[k]@ == rules@[k].path@,
        decreases rules@.len() - i,
    {
        paths.push(rules[i].path.clone());
        i = i + 1;
    }
    let sel = select_rule(&paths, path);
    proof {
        lemma_same_paths_same_selection(paths@, rule_paths(rules@), *path, sel);
    }
    let mut matches: Vec<PolicyMatchInfo> = Vec::new();
    let mut m: usize = 0;
    while m < sel.matches.len()
        invariant
            m <= sel.matches@.len(),
            selection_matches(rule_paths(rules@), *path, sel),
            matches@.len() == m,
            forall|q: int|
                0 <= q < m ==> {
                    let k = #[trigger] sel.matches@[q] as int;
                    &&& matches@[q].index == k
                    &&& matches@[q].path@ == rules@[k].path@
                    &&& matches@[q].depth == rules@[k].path.comps().len()
                    &&& matches@[q].permissions == rules@[k].permissions
                },
        decreases sel.matches@.len() - m,
    {
        let k = sel.matches[m];
        assert(0 <= sel.matches@[m as int] < rule_paths(rules@).len());
        let rule = &rules[k];
        matches.push(
            PolicyMatchInfo {
                index: k,
                path: rule.path.clone(),
                depth: rule.path.depth(),
                permissions: rule.permissions,
            },
        );
        m = m + 1;
    }
    let (selected, effective) = match sel.selected {
        None => (None, PolicyPermissions::deny_all()),
        Some((k, reason)) => {
            let rule = &rules[k];
            (
                Some(SelectedPolicyInfo { index: k, path: rule.path.clone(), reason }),
                rule.permissions,
            )
        },
    };
    let r = PolicyInspection { path: path.clone(), matches, selected, effective };
    assert(inspection_describes(rules@, *path, r));
    r
}

/// Whether `method` is allowed on `path`: `None` when no rule matches the
/// path, otherwise what the selected rule allows.
pub fn resolve_policy(method: MethodKind, rules: &Vec<Policy>, path: &WorkspacePath) -> (r: Option<
    bool,
>)
    ensures
        match r {
            None => forall|k: int|
                0 <= k < rules@.len() ==> !crate::policy::rule_matches(rules@[k].path, *path),
            Some(allowed) => exists|k: int|
                is_selected(rule_paths(rules@), *path, k) && allowed == rules@[k].permissions.allows(
                    method,
                ),
        },
        r is None <==> forall|k: int|
            0 <= k < rules@.len() ==> !crate::policy::rule_matches(rules@[k].path, *path),
        forall|i: PolicyInspection| #[trigger]
            inspection_describes(rules@, *path, i) ==> match r {
                None => i.selected is None,
                Some(allowed) => i.selected is Some && allowed == i.effective.allows(method),
            },
{
    let count: usize = rules.len();
    proof {
        // Rule indices fit a `usize`.
        assert(rules@.len() == count);
    }
    let inspection = inspect_policy_rules(rules, path);
    match inspection.selected {
        None => {
            let ghost sel = choose|sel: RuleSelection| {
                &&& selection_matches(rule_paths(rules@), *path, sel)
                &&& inspection.matches@.len() == sel.matches@.len()
                &&& forall|m: int|
                    0 <= m < inspection.matches@.len() ==> {
                        let k = #[trigger] sel.matches@[m] as int;
                        &&& inspection.matches@[m].index == k
                        &&& inspection.matches@[m].path@ == rules@[k].path@
                        &&& inspection.matches@[m].depth == rules@[k].path.comps().len()
                        &&& inspection.matches@[m].permissions == rules@[k].permissions
                    }
                &&& match sel.selected {
                    None => inspection.selected is None && inspection.effective
                        == PolicyPermissions::deny_all_spec(),
                    Some((k, reason)) => inspection.selected matches Some(s) && s.index == k
                        && s.path@ == rules@[k as int].path@ && s.reason == reason
                        && inspection.effective == rules@[k as int].permissions,
                }
            };
            assert forall|k: int| 0 <= k < rules@.len() implies !crate::policy::rule_matches(
                rules@[k].path,
                *path,
            ) by {
                assert(rule_paths(rules@)[k] == rules@[k].path);
            }
            proof {
                assert forall|i: PolicyInspection| #[trigger]
                    inspection_describes(rules@, *path, i) implies i.selected is None by {
                    lemma_inspection_facts(rules@, *path, i);
                    if let Some(s) = i.selected {
                        let k = s.index as int;
                        assert(crate::policy::rule_matches(rule_paths(rules@)[k], *path));
                        assert(rule_paths(rules@)[k] == rules@[k].path);
                    }
                }
            }
            None
        },
        Some(selected) => {
            let allowed = match method {
                MethodKind::Get => inspection.effective.get,
                MethodKind::Post => inspection.effective.post,
                MethodKind::Put => inspection.effective.put,
                MethodKind::Delete => inspection.effective.delete,
            };
            proof {
                lemma_inspection_facts(rules@, *path, inspection);
                lemma_selection_unique(rule_paths(rules@), *path);
                let k = selected.index as int;
                assert(crate::policy::rule_matches(rule_paths(rules@)[k], *path));
                assert(rule_paths(rules@)[k] == rules@[k].path);
                assert forall|i: PolicyInspection| #[trigger]
                    inspection_describes(rules@, *path, i) implies i.selected is Some && allowed
                    == i.effective.allows(method) by {
                    lemma_inspection_facts(rules@, *path, i);
                    if i.selected is None {
                        assert(i.matches@.len() == 0);
                        assert(exists|m: int| 0 <= m < i.matches@.len() && (#[trigger] i.matches@[m]).index == k);
                    }
                }
            }
            Some(allowed)
        },
    }
}

proof fn lemma_same_paths_same_selection(
    a: Seq<WorkspacePath>,
    b: Seq<WorkspacePath>,
    req: WorkspacePath,
    sel: RuleSelection,
)
    requires
        a.len() == b.len(),
        forall|k: int| 0 <= k < a.len() ==> a[k]@ == b[k]@,
        selection_matches(a, req, sel),
    ensures
        selection_matches(b, req, sel),
{
    assert forall|k: int| 0 <= k < a.len() implies crate::policy::rule_matches(a[k], req)
        == crate::policy::rule_matches(b[k], req) && a[k].comps() == b[k].comps() by {}
    match sel.selected {
        None => {},
        Some((k, reason)) => {
            assert(crate::policy::selection_reason(a, req, k as int) == crate::policy::selection_reason(
                b,
                req,
                k as int,
            ));
        },
    }
}

} // verus!
