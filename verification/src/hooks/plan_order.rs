//! What every plan keeps: a plugin comes after all of its dependencies,
//! and no plugin comes twice.
use vstd::prelude::*;

use crate::hooks::config::{PluginConfig, RepositoryConfig};
use crate::hooks::plan::{
    first_task, hook_runs, plan_steps, plan_visit, plan_visit_deps, run_visit, run_visit_deps,
    spec_manual_runs, spec_plan_task, PlannedRun,
};
use crate::hooks::plugin::{first_named, spec_plugin_matches_path, PluginTrigger};
use crate::plugins::PluginErrorView;
use crate::path::WorkspacePath;

verus! {

/// The names of the plugins of `plan`, in order.
pub open spec fn plan_names(ps: Seq<PluginConfig>, plan: Seq<int>) -> Seq<Seq<char>> {
    plan.map_values(|k: int| ps[k].name@)
}

/// `plan` lists plugins of `ps`, none twice, each after every one of its
/// dependencies.
pub open spec fn dependencies_first(ps: Seq<PluginConfig>, plan: Seq<int>) -> bool {
    &&& forall|i: int| 0 <= i < plan.len() ==> 0 <= #[trigger] plan[i] < ps.len()
    &&& plan_names(ps, plan).no_duplicates()
    &&& forall|i: int, j: int|
        0 <= i < plan.len() && 0 <= j < ps[plan[i]].deps@.len() ==> plan_names(ps, plan).subrange(
            0,
            i,
        ).contains(#[trigger] ps[plan[i]].deps@[j]@)
}

/// The state of a planning walk: the names planned are those of the plan,
/// and the plan keeps its order.
pub open spec fn walk_ok(ps: Seq<PluginConfig>, planned: Seq<Seq<char>>, plan: Seq<int>) -> bool {
    planned == plan_names(ps, plan) && dependencies_first(ps, plan)
}

/// `plan` is how `longer` starts.
pub open spec fn starts_plan(longer: Seq<int>, plan: Seq<int>) -> bool {
    plan.len() <= longer.len() && longer.subrange(0, plan.len() as int) == plan
}

/// Some plugin called `d` is the first one so called.
proof fn lemma_first_of_name(ps: Seq<PluginConfig>, d: Seq<char>, j: int)
    requires
        0 <= j < ps.len(),
        ps[j].name@ == d,
    ensures
        exists|m: int|
            0 <= m < ps.len() && (#[trigger] ps[m]).name@ == d && forall|i: int|
                0 <= i < m ==> ps[i].name@ != d,
    decreases j,
{
    if exists|i: int| 0 <= i < j && (#[trigger] ps[i]).name@ == d {
        let i = choose|i: int| 0 <= i < j && (#[trigger] ps[i]).name@ == d;
        lemma_first_of_name(ps, d, i);
    } else {
        assert(forall|i: int| 0 <= i < j ==> ps[i].name@ != d);
    }
}

proof fn lemma_found_named(ps: Seq<PluginConfig>, d: Seq<char>)
    requires
        first_named(ps, d) is Some,
    ensures
        0 <= first_named(ps, d)->0 < ps.len(),
        ps[first_named(ps, d)->0].name@ == d,
{
    reveal(first_named);
    let w = choose|j: int| 0 <= j < ps.len() && (#[trigger] ps[j]).name@ == d;
    lemma_first_of_name(ps, d, w);
}

/// Names of a longer plan keep those of the plan it starts with.
proof fn lemma_names_extend(ps: Seq<PluginConfig>, longer: Seq<int>, plan: Seq<int>)
    requires
        starts_plan(longer, plan),
    ensures
        plan_names(ps, longer).subrange(0, plan.len() as int) == plan_names(ps, plan),
        forall|x: Seq<char>| plan_names(ps, plan).contains(x) ==> plan_names(ps, longer).contains(x),
{
    assert(plan_names(ps, longer).subrange(0, plan.len() as int) =~= plan_names(ps, plan)) by {
        assert forall|i: int| 0 <= i < plan.len() implies longer[i] == plan[i] by {
            assert(longer.subrange(0, plan.len() as int)[i] == longer[i]);
        }
    }
    assert forall|x: Seq<char>| plan_names(ps, plan).contains(x) implies plan_names(
        ps,
        longer,
    ).contains(x) by {
        let i = choose|i: int| 0 <= i < plan.len() && plan_names(ps, plan)[i] == x;
        assert(plan_names(ps, longer)[i] == plan_names(ps, longer).subrange(
            0,
            plan.len() as int,
        )[i]);
    }
}

/// Visiting plugin `k` keeps the walk in order, plans `k`, and adds no
/// plugin that is on the dependency path `vis`.
proof fn lemma_visit_keeps_order(
    ps: Seq<PluginConfig>,
    k: int,
    vis: Seq<Seq<char>>,
    planned: Seq<Seq<char>>,
    plan: Seq<int>,
)
    requires
        0 <= k < ps.len(),
        walk_ok(ps, planned, plan),
        plan_visit(ps, k, vis, planned, plan) is Ok,
    ensures
        ({
            let (pl, pn) = plan_visit(ps, k, vis, planned, plan)->Ok_0;
            &&& walk_ok(ps, pl, pn)
            &&& starts_plan(pn, plan)
            &&& pl.contains(ps[k].name@)
            &&& forall|i: int| plan.len() <= i < pn.len() ==> !vis.contains(#[trigger] pl[i])
        }),
    decreases ps.len() - vis.len(), 0int, 0int,
{
    let name = ps[k].name@;
    if planned.contains(name) {
        assert(plan.subrange(0, plan.len() as int) =~= plan);
        assert(plan_visit(ps, k, vis, planned, plan) == Ok::<
            (Seq<Seq<char>>, Seq<int>),
            crate::plugins::PluginErrorView,
        >((planned, plan)));
    } else {
        let vis1 = vis.push(name);
        lemma_deps_keep_order(ps, k, 0, vis1, planned, plan);
        let (pl, pn) = plan_visit_deps(ps, k, 0, vis1, planned, plan)->Ok_0;
        let pl2 = pl.push(name);
        let pn2 = pn.push(k);
        assert(plan_names(ps, pn2) =~= pl2);
        assert(pl2[pl.len() as int] == name);
        lemma_names_extend(ps, pn, plan);
        assert(!pl.contains(name)) by {
            if pl.contains(name) {
                let i = choose|i: int| 0 <= i < pl.len() && pl[i] == name;
                if i < plan.len() {
                    assert(pl[i] == pl.subrange(0, plan.len() as int)[i]);
                    assert(planned.contains(name));
                } else {
                    assert(vis1.contains(name)) by {
                        assert(vis1[vis.len() as int] == name);
                    }
                }
            }
        }
        assert(plan_names(ps, pn2).no_duplicates()) by {
            assert forall|a: int, b: int| 0 <= a < b < pn2.len() implies plan_names(ps, pn2)[a]
                != plan_names(ps, pn2)[b] by {
                if b == pn.len() {
                    assert(pl.contains(pl[a]));
                } else {
                    assert(plan_names(ps, pn)[a] == pl2[a]);
                }
            }
        }
        assert forall|i: int, j: int|
            0 <= i < pn2.len() && 0 <= j < ps[pn2[i]].deps@.len() implies plan_names(
            ps,
            pn2,
        ).subrange(0, i).contains(#[trigger] ps[pn2[i]].deps@[j]@) by {
            assert(plan_names(ps, pn2).subrange(0, i) =~= plan_names(ps, pn).subrange(0, i)) by {
                if i < pn.len() {
                    assert forall|m: int| 0 <= m < i implies plan_names(ps, pn2)[m]
                        == plan_names(ps, pn)[m] by {}
                }
            }
            if i < pn.len() {
                assert(pn2[i] == pn[i]);
            } else {
                assert(plan_names(ps, pn).subrange(0, i) =~= pl);
            }
        }
        assert(starts_plan(pn2, plan)) by {
            assert(pn2.subrange(0, plan.len() as int) =~= pn.subrange(0, plan.len() as int));
        }
        assert forall|i: int| plan.len() <= i < pn2.len() implies !vis.contains(#[trigger] pl2[i]) by {
            if i < pn.len() {
                assert(pl2[i] == pl[i]);
                if vis.contains(pl[i]) {
                    let m = choose|m: int| 0 <= m < vis.len() && vis[m] == pl[i];
                    assert(vis1[m] == pl[i]);
                }
            }
        }
    }
}

/// Visiting the dependencies `j..` of plugin `k` keeps the walk in order,
/// plans each of them, and adds no plugin that is on the path `vis`.
proof fn lemma_deps_keep_order(
    ps: Seq<PluginConfig>,
    k: int,
    j: int,
    vis: Seq<Seq<char>>,
    planned: Seq<Seq<char>>,
    plan: Seq<int>,
)
    requires
        0 <= k < ps.len(),
        0 <= j,
        walk_ok(ps, planned, plan),
        plan_visit_deps(ps, k, j, vis, planned, plan) is Ok,
    ensures
        ({
            let (pl, pn) = plan_visit_deps(ps, k, j, vis, planned, plan)->Ok_0;
            &&& walk_ok(ps, pl, pn)
            &&& starts_plan(pn, plan)
            &&& forall|q: int| j <= q < ps[k].deps@.len() ==> pl.contains(#[trigger] ps[k].deps@[q]@)
            &&& forall|i: int| plan.len() <= i < pn.len() ==> !vis.contains(#[trigger] pl[i])
        }),
    decreases ps.len() - vis.len(), 1int, ps[k].deps@.len() - j,
{
    if j >= ps[k].deps@.len() {
        assert(plan.subrange(0, plan.len() as int) =~= plan);
    } else {
        let d = ps[k].deps@[j]@;
        lemma_found_named(ps, d);
        let t = first_named(ps, d)->0;
        lemma_visit_keeps_order(ps, t, vis, planned, plan);
        let (pl1, pn1) = plan_visit(ps, t, vis, planned, plan)->Ok_0;
        lemma_deps_keep_order(ps, k, j + 1, vis, pl1, pn1);
        let (pl, pn) = plan_visit_deps(ps, k, j + 1, vis, pl1, pn1)->Ok_0;
        lemma_names_extend(ps, pn, pn1);
        lemma_names_extend(ps, pn1, plan);
        assert(starts_plan(pn, plan)) by {
            assert(pn.subrange(0, plan.len() as int) =~= pn1.subrange(0, plan.len() as int)) by {
                assert forall|i: int| 0 <= i < plan.len() implies pn[i] == pn1[i] by {
                    assert(pn.subrange(0, pn1.len() as int)[i] == pn[i]);
                }
            }
        }
        assert forall|i: int| plan.len() <= i < pn.len() implies !vis.contains(#[trigger] pl[i]) by {
            if i < pn1.len() {
                assert(pl[i] == plan_names(ps, pn).subrange(0, pn1.len() as int)[i]);
                assert(pl[i] == pl1[i]);
            }
        }
    }
}

/// Planning the steps `i..` with their dependencies keeps the plan in
/// order and plans the plugin of every step.
proof fn lemma_steps_keep_order(
    ps: Seq<PluginConfig>,
    steps: Seq<String>,
    i: int,
    planned: Seq<Seq<char>>,
    plan: Seq<int>,
)
    requires
        0 <= i,
        walk_ok(ps, planned, plan),
        plan_steps(ps, steps, i, false, planned, plan) is Ok,
    ensures
        ({
            let pn = plan_steps(ps, steps, i, false, planned, plan)->Ok_0;
            &&& dependencies_first(ps, pn)
            &&& forall|s: int| i <= s < steps.len() ==> plan_names(ps, pn).contains(#[trigger] steps[s]@)
            &&& forall|x: Seq<char>| planned.contains(x) ==> plan_names(ps, pn).contains(x)
        }),
    decreases steps.len() - i,
{
    if i < steps.len() {
        let d = steps[i]@;
        lemma_found_named(ps, d);
        let t = first_named(ps, d)->0;
        lemma_visit_keeps_order(ps, t, Seq::empty(), planned, plan);
        let (pl, pn1) = plan_visit(ps, t, Seq::empty(), planned, plan)->Ok_0;
        lemma_names_extend(ps, pn1, plan);
        lemma_steps_keep_order(ps, steps, i + 1, pl, pn1);
    }
}

/// A task planned with its dependencies runs the plugin of every step of
/// the task, runs every plugin after all of its dependencies, and runs no
/// plugin twice.
pub proof fn lemma_task_plan_dependencies_first(c: RepositoryConfig, name: Seq<char>)
    requires
        spec_plan_task(c, name, false) is Ok,
    ensures
        dependencies_first(c.plugin@, spec_plan_task(c, name, false)->Ok_0),
        match first_task(c.task@, name) {
            Some(t) => forall|s: int|
                0 <= s < c.task@[t].steps@.len() ==> plan_names(
                    c.plugin@,
                    spec_plan_task(c, name, false)->Ok_0,
                ).contains(#[trigger] c.task@[t].steps@[s]@),
            None => false,
        },
{
    let ps = c.plugin@;
    let t = first_task(c.task@, name)->0;
    assert(plan_names(ps, Seq::empty()) =~= Seq::<Seq<char>>::empty());
    lemma_steps_keep_order(ps, c.task@[t].steps@, 0, Seq::empty(), Seq::empty());
}

/// The plugins of `runs`, in order.
pub open spec fn run_plugins(runs: Seq<PlannedRun>) -> Seq<int> {
    runs.map_values(|r: PlannedRun| r.plugin as int)
}

/// The state of a running walk: the names run are those of the runs, and
/// the runs keep their order.
pub open spec fn runs_ok(ps: Seq<PluginConfig>, executed: Seq<Seq<char>>, runs: Seq<PlannedRun>) -> bool {
    walk_ok(ps, executed, run_plugins(runs))
}

/// Pushing a run of plugin `k` pushes `k` on the plugins run.
proof fn lemma_run_plugins_push(ps: Seq<PluginConfig>, runs: Seq<PlannedRun>, r: PlannedRun, k: int)
    requires
        0 <= k < ps.len() <= usize::MAX,
        r.plugin == k,
    ensures
        run_plugins(runs.push(r)) == run_plugins(runs).push(k),
{
    assert(run_plugins(runs.push(r)) =~= run_plugins(runs).push(k));
}

/// Running plugin `k` keeps the runs in order, adds no plugin that is on
/// the path `vis`, and runs `k` unless it stops with an error.
proof fn lemma_run_visit_keeps_order(
    ps: Seq<PluginConfig>,
    k: int,
    trigger: PluginTrigger,
    with_path: bool,
    vis: Seq<Seq<char>>,
    executed: Seq<Seq<char>>,
    runs: Seq<PlannedRun>,
)
    requires
        0 <= k < ps.len() <= usize::MAX,
        runs_ok(ps, executed, runs),
    ensures
        ({
            let (ex, rn, err) = run_visit(ps, k, trigger, with_path, vis, executed, runs);
            &&& runs_ok(ps, ex, rn)
            &&& starts_plan(run_plugins(rn), run_plugins(runs))
            &&& err is None ==> ex.contains(ps[k].name@)
            &&& forall|i: int| runs.len() <= i < rn.len() ==> !vis.contains(#[trigger] ex[i])
        }),
    decreases ps.len() - vis.len(), 0int, 0int,
{
    let name = ps[k].name@;
    let plan = run_plugins(runs);
    if executed.contains(name) || vis.contains(name) || vis.len() >= ps.len() {
        assert(plan.subrange(0, plan.len() as int) =~= plan);
    } else {
        let vis1 = vis.push(name);
        lemma_run_deps_keep_order(ps, k, 0, vis1, executed, runs);
        let (pl, rn, err) = run_visit_deps(ps, k, 0, vis1, executed, runs);
        let pn = run_plugins(rn);
        lemma_names_extend(ps, pn, plan);
        if err is Some {
            assert forall|i: int| runs.len() <= i < rn.len() implies !vis.contains(#[trigger] pl[i]) by {
                if vis.contains(pl[i]) {
                    let m = choose|m: int| 0 <= m < vis.len() && vis[m] == pl[i];
                    assert(vis1[m] == pl[i]);
                }
            }
        } else {
            let pl2 = pl.push(name);
            let r = PlannedRun { plugin: k as usize, trigger, with_path };
            let rn2 = rn.push(r);
            lemma_run_plugins_push(ps, rn, r, k);
            let pn2 = run_plugins(rn2);
            assert(plan_names(ps, pn2) =~= pl2);
            assert(pl2[pl.len() as int] == name);
            assert(!pl.contains(name)) by {
                if pl.contains(name) {
                    let i = choose|i: int| 0 <= i < pl.len() && pl[i] == name;
                    if i < plan.len() {
                        assert(pl[i] == pl.subrange(0, plan.len() as int)[i]);
                        assert(executed.contains(name));
                    } else {
                        assert(vis1.contains(name)) by {
                            assert(vis1[vis.len() as int] == name);
                        }
                    }
                }
            }
            assert(plan_names(ps, pn2).no_duplicates()) by {
                assert forall|a: int, b: int| 0 <= a < b < pn2.len() implies plan_names(ps, pn2)[a]
                    != plan_names(ps, pn2)[b] by {
                    if b == pn.len() {
                        assert(pl.contains(pl[a]));
                    } else {
                        assert(plan_names(ps, pn)[a] == pl2[a]);
                    }
                }
            }
            assert forall|i: int, j: int|
                0 <= i < pn2.len() && 0 <= j < ps[pn2[i]].deps@.len() implies plan_names(
                ps,
                pn2,
            ).subrange(0, i).contains(#[trigger] ps[pn2[i]].deps@[j]@) by {
                assert(plan_names(ps, pn2).subrange(0, i) =~= plan_names(ps, pn).subrange(0, i)) by {
                    if i < pn.len() {
                        assert forall|m: int| 0 <= m < i implies plan_names(ps, pn2)[m]
                            == plan_names(ps, pn)[m] by {}
                    }
                }
                if i < pn.len() {
                    assert(pn2[i] == pn[i]);
                } else {
                    assert(plan_names(ps, pn).subrange(0, i) =~= pl);
                }
            }
            assert(starts_plan(pn2, plan)) by {
                assert(pn2.subrange(0, plan.len() as int) =~= pn.subrange(0, plan.len() as int));
            }
            assert forall|i: int| runs.len() <= i < rn2.len() implies !vis.contains(#[trigger] pl2[i]) by {
                if i < rn.len() {
                    assert(pl2[i] == pl[i]);
                    if vis.contains(pl[i]) {
                        let m = choose|m: int| 0 <= m < vis.len() && vis[m] == pl[i];
                        assert(vis1[m] == pl[i]);
                    }
                }
            }
        }
    }
}

/// Running the dependencies `j..` of plugin `k` keeps the runs in order,
/// adds no plugin that is on the path `vis`, and runs each of them unless
/// it stops with an error.
proof fn lemma_run_deps_keep_order(
    ps: Seq<PluginConfig>,
    k: int,
    j: int,
    vis: Seq<Seq<char>>,
    executed: Seq<Seq<char>>,
    runs: Seq<PlannedRun>,
)
    requires
        0 <= k < ps.len() <= usize::MAX,
        0 <= j,
        runs_ok(ps, executed, runs),
    ensures
        ({
            let (ex, rn, err) = run_visit_deps(ps, k, j, vis, executed, runs);
            &&& runs_ok(ps, ex, rn)
            &&& starts_plan(run_plugins(rn), run_plugins(runs))
            &&& err is None ==> forall|q: int|
                j <= q < ps[k].deps@.len() ==> ex.contains(#[trigger] ps[k].deps@[q]@)
            &&& forall|i: int| runs.len() <= i < rn.len() ==> !vis.contains(#[trigger] ex[i])
        }),
    decreases ps.len() - vis.len(), 1int, ps[k].deps@.len() - j,
{
    let plan = run_plugins(runs);
    if j >= ps[k].deps@.len() || first_named(ps, ps[k].deps@[j]@) is None {
        assert(plan.subrange(0, plan.len() as int) =~= plan);
    } else {
        let d = ps[k].deps@[j]@;
        lemma_found_named(ps, d);
        let t = first_named(ps, d)->0;
        lemma_run_visit_keeps_order(ps, t, PluginTrigger::Manual, false, vis, executed, runs);
        let (pl1, rn1, err1) = run_visit(ps, t, PluginTrigger::Manual, false, vis, executed, runs);
        if err1 is None {
            lemma_run_deps_keep_order(ps, k, j + 1, vis, pl1, rn1);
            let (pl, rn, err) = run_visit_deps(ps, k, j + 1, vis, pl1, rn1);
            let pn = run_plugins(rn);
            let pn1 = run_plugins(rn1);
            lemma_names_extend(ps, pn, pn1);
            lemma_names_extend(ps, pn1, plan);
            assert(starts_plan(pn, plan)) by {
                assert(pn.subrange(0, plan.len() as int) =~= pn1.subrange(0, plan.len() as int)) by {
                    assert forall|i: int| 0 <= i < plan.len() implies pn[i] == pn1[i] by {
                        assert(pn.subrange(0, pn1.len() as int)[i] == pn[i]);
                    }
                }
            }
            assert forall|i: int| runs.len() <= i < rn.len() implies !vis.contains(#[trigger] pl[i]) by {
                if i < rn1.len() {
                    assert(pl[i] == plan_names(ps, pn).subrange(0, pn1.len() as int)[i]);
                    assert(pl[i] == pl1[i]);
                }
            }
        }
    }
}

/// The hooks that a request fires, from plugin `i` on, keep the runs in
/// order.
proof fn lemma_hook_runs_keep_order(
    c: RepositoryConfig,
    trigger: PluginTrigger,
    path: WorkspacePath,
    i: int,
    executed: Seq<Seq<char>>,
    runs: Seq<PlannedRun>,
)
    requires
        c.plugin@.len() <= usize::MAX,
        0 <= i,
        runs_ok(c.plugin@, executed, runs),
    ensures
        dependencies_first(c.plugin@, run_plugins(hook_runs(c, trigger, path, i, executed, runs).0)),
    decreases c.plugin@.len() - i,
{
    if i < c.plugin@.len() {
        let p = c.plugin@[i];
        if !(exists|t: PluginTrigger| t.spec_name() == p.trigger@) {
        } else if trigger.spec_name() != p.trigger@ || !spec_plugin_matches_path(p, path) {
            lemma_hook_runs_keep_order(c, trigger, path, i + 1, executed, runs);
        } else {
            lemma_run_visit_keeps_order(c.plugin@, i, trigger, true, Seq::empty(), executed, runs);
            let (ex, rn, err) = run_visit(c.plugin@, i, trigger, true, Seq::empty(), executed, runs);
            if err is None {
                lemma_hook_runs_keep_order(c, trigger, path, i + 1, ex, rn);
            }
        }
    }
}

/// Every plugin that a request fires or that is run by hand runs after
/// all of its dependencies, and no plugin runs twice; this holds of the
/// runs made before an error too.
pub proof fn lemma_runs_dependencies_first(
    c: RepositoryConfig,
    trigger: PluginTrigger,
    path: WorkspacePath,
    name: Seq<char>,
)
    requires
        c.plugin@.len() <= usize::MAX,
    ensures
        dependencies_first(
            c.plugin@,
            run_plugins(hook_runs(c, trigger, path, 0, Seq::empty(), Seq::empty()).0),
        ),
        dependencies_first(c.plugin@, run_plugins(spec_manual_runs(c, name).0)),
{
    let ps = c.plugin@;
    assert(run_plugins(Seq::empty()) =~= Seq::<int>::empty());
    assert(plan_names(ps, Seq::empty()) =~= Seq::<Seq<char>>::empty());
    lemma_hook_runs_keep_order(c, trigger, path, 0, Seq::empty(), Seq::empty());
    if first_named(ps, name) is Some {
        lemma_found_named(ps, name);
        let k = first_named(ps, name)->0;
        lemma_run_visit_keeps_order(
            ps,
            k,
            PluginTrigger::Manual,
            false,
            Seq::empty(),
            Seq::empty(),
            Seq::empty(),
        );
    }
}

/// The hooks that a request fires, from plugin `i` on, keep every name
/// already run and, unless an error stops them, run every plugin from `i`
/// on whose trigger is the request's and whose path matches.
proof fn lemma_hook_runs_cover(
    c: RepositoryConfig,
    trigger: PluginTrigger,
    path: WorkspacePath,
    i: int,
    executed: Seq<Seq<char>>,
    runs: Seq<PlannedRun>,
)
    requires
        c.plugin@.len() <= usize::MAX,
        0 <= i,
        runs_ok(c.plugin@, executed, runs),
    ensures
        ({
            let (rn, err) = hook_runs(c, trigger, path, i, executed, runs);
            let names = plan_names(c.plugin@, run_plugins(rn));
            &&& forall|x: Seq<char>| executed.contains(x) ==> names.contains(x)
            &&& err is None ==> forall|k: int|
                i <= k < c.plugin@.len() && (#[trigger] c.plugin@[k]).trigger@ == trigger.spec_name()
                    && spec_plugin_matches_path(c.plugin@[k], path) ==> names.contains(
                    c.plugin@[k].name@,
                )
        }),
    decreases c.plugin@.len() - i,
{
    let ps = c.plugin@;
    if i < ps.len() {
        let p = ps[i];
        if !(exists|t: PluginTrigger| t.spec_name() == p.trigger@) {
        } else if trigger.spec_name() != p.trigger@ || !spec_plugin_matches_path(p, path) {
            lemma_hook_runs_cover(c, trigger, path, i + 1, executed, runs);
        } else {
            lemma_run_visit_keeps_order(ps, i, trigger, true, Seq::empty(), executed, runs);
            let (ex, rn1, err1) = run_visit(ps, i, trigger, true, Seq::empty(), executed, runs);
            lemma_names_extend(ps, run_plugins(rn1), run_plugins(runs));
            if err1 is None {
                lemma_hook_runs_cover(c, trigger, path, i + 1, ex, rn1);
            }
        }
    }
}

/// Every hook that a request fires is planned: unless an error stops the
/// plan, each plugin whose trigger is the request's and whose path matches
/// the request path is among the runs (run for the request, or earlier as
/// a dependency of another hook).
pub proof fn lemma_hooks_all_fire(c: RepositoryConfig, trigger: PluginTrigger, path: WorkspacePath)
    requires
        c.plugin@.len() <= usize::MAX,
    ensures
        ({
            let (rn, err) = hook_runs(c, trigger, path, 0, Seq::empty(), Seq::empty());
            err is None ==> forall|k: int|
                0 <= k < c.plugin@.len() && (#[trigger] c.plugin@[k]).trigger@ == trigger.spec_name()
                    && spec_plugin_matches_path(c.plugin@[k], path) ==> exists|j: int|
                    0 <= j < rn.len() && c.plugin@[rn[j].plugin as int].name@ == c.plugin@[k].name@
        }),
{
    let ps = c.plugin@;
    assert(run_plugins(Seq::empty()) =~= Seq::<int>::empty());
    assert(plan_names(ps, Seq::empty()) =~= Seq::<Seq<char>>::empty());
    lemma_hook_runs_cover(c, trigger, path, 0, Seq::empty(), Seq::empty());
    let (rn, err) = hook_runs(c, trigger, path, 0, Seq::empty(), Seq::empty());
    let names = plan_names(ps, run_plugins(rn));
    if err is None {
        assert forall|k: int|
            0 <= k < ps.len() && (#[trigger] ps[k]).trigger@ == trigger.spec_name()
                && spec_plugin_matches_path(ps[k], path) implies exists|j: int|
            0 <= j < rn.len() && ps[rn[j].plugin as int].name@ == ps[k].name@ by {
            assert(names.contains(ps[k].name@));
            let j = choose|j: int| 0 <= j < names.len() && names[j] == ps[k].name@;
            assert(names[j] == ps[run_plugins(rn)[j]].name@);
        }
    }
}

/// Running a plugin by hand: an unknown name is not found, a plugin fired
/// by requests is refused, and a run that meets no error ends with the
/// plugin itself, run by hand and without a request path.
pub proof fn lemma_manual_runs(c: RepositoryConfig, name: Seq<char>)
    requires
        c.plugin@.len() <= usize::MAX,
    ensures
        (forall|j: int| 0 <= j < c.plugin@.len() ==> (#[trigger] c.plugin@[j]).name@ != name)
            ==> spec_manual_runs(c, name) == (
            Seq::<PlannedRun>::empty(),
            Some(PluginErrorView::PluginNotFound(name)),
        ),
        first_named(c.plugin@, name) matches Some(k) ==> {
            &&& c.plugin@[k].trigger@ != "manual"@ ==> spec_manual_runs(c, name) == (
                Seq::<PlannedRun>::empty(),
                Some(PluginErrorView::NotManual(name)),
            )
            &&& spec_manual_runs(c, name).1 is None ==> ({
                let rn = spec_manual_runs(c, name).0;
                rn.len() > 0 && rn.last() == PlannedRun {
                    plugin: k as usize,
                    trigger: PluginTrigger::Manual,
                    with_path: false,
                }
            })
        },
{
    let ps = c.plugin@;
    if forall|j: int| 0 <= j < ps.len() ==> (#[trigger] ps[j]).name@ != name {
        if first_named(ps, name) is Some {
            lemma_found_named(ps, name);
        }
    }
    if first_named(ps, name) is Some {
        lemma_found_named(ps, name);
    }
}

/// The plugin names of task steps, in order.
pub open spec fn step_names(steps: Seq<String>) -> Seq<Seq<char>> {
    steps.map_values(|x: String| x@)
}

/// Planning the steps `i..` alone plans each step's plugin once and
/// nothing else.
proof fn lemma_skip_steps_plan(
    ps: Seq<PluginConfig>,
    steps: Seq<String>,
    i: int,
    planned: Seq<Seq<char>>,
    plan: Seq<int>,
)
    requires
        0 <= i,
        planned == plan_names(ps, plan),
        planned.no_duplicates(),
        forall|x: Seq<char>| planned.contains(x) ==> step_names(steps).contains(x),
        plan_steps(ps, steps, i, true, planned, plan) is Ok,
    ensures
        ({
            let pn = plan_steps(ps, steps, i, true, planned, plan)->Ok_0;
            &&& plan_names(ps, pn).no_duplicates()
            &&& forall|s: int| i <= s < steps.len() ==> plan_names(ps, pn).contains(#[trigger] steps[s]@)
            &&& forall|x: Seq<char>| planned.contains(x) ==> plan_names(ps, pn).contains(x)
            &&& forall|x: Seq<char>| plan_names(ps, pn).contains(x) ==> step_names(steps).contains(x)
        }),
    decreases steps.len() - i,
{
    if i < steps.len() {
        let d = steps[i]@;
        lemma_found_named(ps, d);
        let t = first_named(ps, d)->0;
        assert(step_names(steps)[i] == d);
        let result = plan_steps(ps, steps, i, true, planned, plan)->Ok_0;
        if planned.contains(ps[t].name@) {
            lemma_skip_steps_plan(ps, steps, i + 1, planned, plan);
            assert(plan_names(ps, result).contains(d));
        } else {
            let pl = planned.push(ps[t].name@);
            let pn = plan.push(t);
            assert(plan_names(ps, pn) =~= pl);
            assert(pl[planned.len() as int] == d);
            assert(pl.no_duplicates()) by {
                assert forall|a: int, b: int| 0 <= a < b < pl.len() implies pl[a] != pl[b] by {
                    if b == planned.len() {
                        assert(planned.contains(planned[a]));
                    }
                }
            }
            assert forall|x: Seq<char>| pl.contains(x) implies step_names(steps).contains(x) by {
                let m = choose|m: int| 0 <= m < pl.len() && pl[m] == x;
                if m < planned.len() {
                    assert(planned.contains(planned[m]));
                }
            }
            lemma_skip_steps_plan(ps, steps, i + 1, pl, pn);
            assert forall|x: Seq<char>| planned.contains(x) implies pl.contains(x) by {
                let m = choose|m: int| 0 <= m < planned.len() && planned[m] == x;
                assert(pl[m] == x);
            }
            assert(pl.contains(d));
            assert(plan_names(ps, result).contains(d));
        }
    }
}

/// A task planned without dependencies runs the plugin of each of its
/// steps once and nothing else.
pub proof fn lemma_task_plan_steps_only(c: RepositoryConfig, name: Seq<char>)
    requires
        spec_plan_task(c, name, true) is Ok,
    ensures
        match first_task(c.task@, name) {
            Some(t) => {
                let names = plan_names(c.plugin@, spec_plan_task(c, name, true)->Ok_0);
                &&& names.no_duplicates()
                &&& forall|s: int|
                    0 <= s < c.task@[t].steps@.len() ==> names.contains(#[trigger] c.task@[t].steps@[s]@)
                &&& forall|x: Seq<char>| names.contains(x) ==> step_names(c.task@[t].steps@).contains(x)
            },
            None => false,
        },
{
    let ps = c.plugin@;
    let t = first_task(c.task@, name)->0;
    assert(plan_names(ps, Seq::empty()) =~= Seq::<Seq<char>>::empty());
    lemma_skip_steps_plan(ps, c.task@[t].steps@, 0, Seq::empty(), Seq::empty());
}

} // verus!
