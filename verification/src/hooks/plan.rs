//! The order in which plugins run: a task's steps with their dependencies
//! first, a manual plugin after its dependencies, and every hook that a
//! request fires. Dependency cycles and unknown plugins are reported.
use vstd::prelude::*;

use crate::hooks::config::{has_plugin, PluginConfig, RepositoryConfig, TaskConfig};
use crate::hooks::plugin::{
    first_named, lemma_first_named, lemma_none_named, parse_trigger, plugin_matches_path,
    spec_plugin_matches_path, PluginTrigger,
};
use crate::path::WorkspacePath;
use crate::plugins::{PluginError, PluginErrorView};
use crate::text::{contains_text, same_text, texts};

verus! {

/// The indices of a plan, as integers.
pub open spec fn ints(v: Seq<usize>) -> Seq<int> {
    v.map_values(|u: usize| u as int)
}

/// Planning plugin `k` (an `append_plugin_plan` call): `vis` holds the
/// plugins being planned on the current dependency path, `planned` the
/// names already planned and `plan` the plan so far. A planned plugin is
/// skipped; one already on the path closes a cycle; otherwise its
/// dependencies are planned first and then the plugin itself.
pub open spec fn plan_visit(
    ps: Seq<PluginConfig>,
    k: int,
    vis: Seq<Seq<char>>,
    planned: Seq<Seq<char>>,
    plan: Seq<int>,
) -> Result<(Seq<Seq<char>>, Seq<int>), PluginErrorView>
    decreases ps.len() - vis.len(), 0int, 0int,
{
    let name = ps[k].name@;
    if planned.contains(name) {
        Ok((planned, plan))
    } else if vis.contains(name) || vis.len() >= ps.len() {
        Err(PluginErrorView::DependencyCycle(name))
    } else {
        match plan_visit_deps(ps, k, 0, vis.push(name), planned, plan) {
            Err(e) => Err(e),
            Ok((pl, pn)) => Ok((pl.push(name), pn.push(k))),
        }
    }
}

/// Planning the dependencies `j..` of plugin `k`, in order.
pub open spec fn plan_visit_deps(
    ps: Seq<PluginConfig>,
    k: int,
    j: int,
    vis: Seq<Seq<char>>,
    planned: Seq<Seq<char>>,
    plan: Seq<int>,
) -> Result<(Seq<Seq<char>>, Seq<int>), PluginErrorView>
    decreases ps.len() - vis.len(), 1int, ps[k].deps@.len() - j,
{
    if j < 0 || j >= ps[k].deps@.len() {
        Ok((planned, plan))
    } else {
        let d = ps[k].deps@[j]@;
        match first_named(ps, d) {
            None => Err(PluginErrorView::PluginNotFound(d)),
            Some(t) => match plan_visit(ps, t, vis, planned, plan) {
                Err(e) => Err(e),
                Ok((pl, pn)) => plan_visit_deps(ps, k, j + 1, vis, pl, pn),
            },
        }
    }
}

/// Planning the task steps `i..`. With `skip`, each step's plugin is
/// planned alone, once; otherwise with its dependencies.
pub open spec fn plan_steps(
    ps: Seq<PluginConfig>,
    steps: Seq<String>,
    i: int,
    skip: bool,
    planned: Seq<Seq<char>>,
    plan: Seq<int>,
) -> Result<Seq<int>, PluginErrorView>
    decreases steps.len() - i,
{
    if i < 0 || i >= steps.len() {
        Ok(plan)
    } else {
        let s = steps[i]@;
        match first_named(ps, s) {
            None => Err(PluginErrorView::StepPluginNotFound(s)),
            Some(t) => if skip {
                if planned.contains(ps[t].name@) {
                    plan_steps(ps, steps, i + 1, skip, planned, plan)
                } else {
                    plan_steps(ps, steps, i + 1, skip, planned.push(ps[t].name@), plan.push(t))
                }
            } else {
                match plan_visit(ps, t, Seq::empty(), planned, plan) {
                    Err(e) => Err(e),
                    Ok((pl, pn)) => plan_steps(ps, steps, i + 1, skip, pl, pn),
                }
            },
        }
    }
}

/// The first task called `name`.
#[verifier::opaque]
pub open spec fn first_task(tasks: Seq<TaskConfig>, name: Seq<char>) -> Option<int> {
    if exists|j: int| 0 <= j < tasks.len() && (#[trigger] tasks[j]).name@ == name {
        Some(
            choose|j: int|
                0 <= j < tasks.len() && (#[trigger] tasks[j]).name@ == name && forall|i: int|
                    0 <= i < j ==> tasks[i].name@ != name,
        )
    } else {
        None
    }
}

/// The plan of the task called `name`: the indices of the plugins to run,
/// in order.
pub open spec fn spec_plan_task(c: RepositoryConfig, name: Seq<char>, skip: bool) -> Result<
    Seq<int>,
    PluginErrorView,
> {
    match first_task(c.task@, name) {
        None => Err(PluginErrorView::TaskNotFound(name)),
        Some(t) => plan_steps(c.plugin@, c.task@[t].steps@, 0, skip, Seq::empty(), Seq::empty()),
    }
}

proof fn lemma_first_task(tasks: Seq<TaskConfig>, name: Seq<char>, j: int)
    requires
        0 <= j < tasks.len(),
        tasks[j].name@ == name,
        forall|i: int| 0 <= i < j ==> tasks[i].name@ != name,
    ensures
        first_task(tasks, name) == Some(j),
{
    reveal(first_task);
    let k = choose|k: int|
        0 <= k < tasks.len() && (#[trigger] tasks[k]).name@ == name && forall|i: int|
            0 <= i < k ==> tasks[i].name@ != name;
    assert(0 <= k < tasks.len() && tasks[k].name@ == name && forall|i: int|
        0 <= i < k ==> tasks[i].name@ != name);
    if k < j {
        assert(tasks[k].name@ != name);
    }
    if j < k {
        assert(tasks[j].name@ != name);
    }
}

proof fn lemma_no_task(tasks: Seq<TaskConfig>, name: Seq<char>)
    requires
        forall|i: int| 0 <= i < tasks.len() ==> tasks[i].name@ != name,
    ensures
        first_task(tasks, name) is None,
{
    reveal(first_task);
}

/// A path of distinct plugin names is no longer than the plugin list.
proof fn lemma_path_bound(ps: Seq<PluginConfig>, vis: Seq<Seq<char>>)
    requires
        vis.no_duplicates(),
        forall|i: int| 0 <= i < vis.len() ==> has_plugin(ps, #[trigger] vis[i]),
    ensures
        vis.len() <= ps.len(),
{
    broadcast use vstd::seq_lib::seq_to_set_is_finite;

    let names = ps.map_values(|p: PluginConfig| p.name@);
    vis.unique_seq_to_set();
    assert(vis.to_set().subset_of(names.to_set())) by {
        assert forall|x: Seq<char>| vis.to_set().contains(x) implies names.to_set().contains(x) by {
            let i = choose|i: int| 0 <= i < vis.len() && vis[i] == x;
            assert(has_plugin(ps, vis[i]));
            let j = choose|j: int| 0 <= j < ps.len() && (#[trigger] ps[j]).name@ == vis[i];
            assert(names[j] == x);
        }
    }
    vstd::set_lib::lemma_len_subset(vis.to_set(), names.to_set());
    names.lemma_cardinality_of_set();
}

/// Once the dependencies from `j` on fail, the whole visit fails alike.
proof fn lemma_visit_deps_fails(
    ps: Seq<PluginConfig>,
    k: int,
    j: int,
    vis: Seq<Seq<char>>,
    planned: Seq<Seq<char>>,
    plan: Seq<int>,
)
    requires
        0 <= j < ps[k].deps@.len(),
        first_named(ps, ps[k].deps@[j]@) is None,
    ensures
        plan_visit_deps(ps, k, j, vis, planned, plan) == Err::<
            (Seq<Seq<char>>, Seq<int>),
            PluginErrorView,
        >(PluginErrorView::PluginNotFound(ps[k].deps@[j]@)),
{
}

/// One plugin run of a plan: which plugin, for which trigger, and whether
/// it receives the request path.
#[derive(Debug, Clone, Copy, PartialEq, Eq, Structural)]
pub struct PlannedRun {
    pub plugin: usize,
    pub trigger: PluginTrigger,
    pub with_path: bool,
}

/// Runs to perform in order, and the error met after them, if any.
#[derive(Debug)]
pub struct RunPlan {
    pub runs: Vec<PlannedRun>,
    pub error: Option<PluginError>,
}

/// Running plugin `k` for `trigger` (a `run_plugin_with_dependencies`
/// call): `vis` holds the plugins on the current dependency path and
/// `executed` the names already run. An executed plugin is skipped; one
/// already on the path closes a cycle; otherwise its dependencies run
/// first, by hand and without the request path, and then the plugin.
/// Yields the names run, the runs and the error that stops them.
pub open spec fn run_visit(
    ps: Seq<PluginConfig>,
    k: int,
    trigger: PluginTrigger,
    with_path: bool,
    vis: Seq<Seq<char>>,
    executed: Seq<Seq<char>>,
    runs: Seq<PlannedRun>,
) -> (Seq<Seq<char>>, Seq<PlannedRun>, Option<PluginErrorView>)
    decreases ps.len() - vis.len(), 0int, 0int,
{
    let name = ps[k].name@;
    if executed.contains(name) {
        (executed, runs, None)
    } else if vis.contains(name) || vis.len() >= ps.len() {
        (executed, runs, Some(PluginErrorView::DependencyCycle(name)))
    } else {
        let (ex, rn, err) = run_visit_deps(ps, k, 0, vis.push(name), executed, runs);
        if err is Some {
            (ex, rn, err)
        } else {
            (
                ex.push(name),
                rn.push(PlannedRun { plugin: k as usize, trigger, with_path }),
                None,
            )
        }
    }
}

/// Running the dependencies `j..` of plugin `k`, in order.
pub open spec fn run_visit_deps(
    ps: Seq<PluginConfig>,
    k: int,
    j: int,
    vis: Seq<Seq<char>>,
    executed: Seq<Seq<char>>,
    runs: Seq<PlannedRun>,
) -> (Seq<Seq<char>>, Seq<PlannedRun>, Option<PluginErrorView>)
    decreases ps.len() - vis.len(), 1int, ps[k].deps@.len() - j,
{
    if j < 0 || j >= ps[k].deps@.len() {
        (executed, runs, None)
    } else {
        let d = ps[k].deps@[j]@;
        match first_named(ps, d) {
            None => (executed, runs, Some(PluginErrorView::PluginNotFound(d))),
            Some(t) => {
                let (ex, rn, err) = run_visit(
                    ps,
                    t,
                    PluginTrigger::Manual,
                    false,
                    vis,
                    executed,
                    runs,
                );
                if err is Some {
                    (ex, rn, err)
                } else {
                    run_visit_deps(ps, k, j + 1, vis, ex, rn)
                }
            },
        }
    }
}

/// The runs of the manual plugin `name` and the error that stops them.
pub open spec fn spec_manual_runs(c: RepositoryConfig, name: Seq<char>) -> (Seq<PlannedRun>, Option<
    PluginErrorView,
>) {
    match first_named(c.plugin@, name) {
        None => (Seq::empty(), Some(PluginErrorView::PluginNotFound(name))),
        Some(k) => if c.plugin@[k].trigger@ != "manual"@ {
            (Seq::empty(), Some(PluginErrorView::NotManual(name)))
        } else {
            let (_, rn, err) = run_visit(
                c.plugin@,
                k,
                PluginTrigger::Manual,
                false,
                Seq::empty(),
                Seq::empty(),
                Seq::empty(),
            );
            (rn, err)
        },
    }
}

/// The runs fired by a request with `trigger` on `path`, looking at the
/// plugins `i..`, and the error that stops them.
pub open spec fn hook_runs(
    c: RepositoryConfig,
    trigger: PluginTrigger,
    path: WorkspacePath,
    i: int,
    executed: Seq<Seq<char>>,
    runs: Seq<PlannedRun>,
) -> (Seq<PlannedRun>, Option<PluginErrorView>)
    decreases c.plugin@.len() - i,
{
    if i < 0 || i >= c.plugin@.len() {
        (runs, None)
    } else {
        let p = c.plugin@[i];
        if !(exists|t: PluginTrigger| t.spec_name() == p.trigger@) {
            (runs, Some(PluginErrorView::UnsupportedTrigger(p.trigger@)))
        } else if trigger.spec_name() != p.trigger@ || !spec_plugin_matches_path(p, path) {
            hook_runs(c, trigger, path, i + 1, executed, runs)
        } else {
            let (ex, rn, err) = run_visit(
                c.plugin@,
                i,
                trigger,
                true,
                Seq::empty(),
                executed,
                runs,
            );
            if err is Some {
                (rn, err)
            } else {
                hook_runs(c, trigger, path, i + 1, ex, rn)
            }
        }
    }
}

/// Once the dependencies from `j` on meet an unknown plugin, the visit
/// stops there.
proof fn lemma_run_deps_fails(
    ps: Seq<PluginConfig>,
    k: int,
    j: int,
    vis: Seq<Seq<char>>,
    executed: Seq<Seq<char>>,
    runs: Seq<PlannedRun>,
)
    requires
        0 <= j < ps[k].deps@.len(),
        first_named(ps, ps[k].deps@[j]@) is None,
    ensures
        run_visit_deps(ps, k, j, vis, executed, runs) == (
            executed,
            runs,
            Some(PluginErrorView::PluginNotFound(ps[k].deps@[j]@)),
        ),
{
}

impl RepositoryConfig {
    /// Appends plugin `k` to `plan`, after its dependencies (see
    /// [`plan_visit`]).
    fn append_plugin_plan(
        &self,
        k: usize,
        visiting: &mut Vec<String>,
        planned: &mut Vec<String>,
        plan: &mut Vec<usize>,
    ) -> (r: Result<(), PluginError>)
        requires
            k < self.plugin@.len(),
            texts(old(visiting)@).no_duplicates(),
            forall|i: int|
                0 <= i < old(visiting)@.len() ==> has_plugin(
                    self.plugin@,
                    #[trigger] texts(old(visiting)@)[i],
                ),
        ensures
            match plan_visit(
                self.plugin@,
                k as int,
                texts(old(visiting)@),
                texts(old(planned)@),
                ints(old(plan)@),
            ) {
                Ok((pl, pn)) => r is Ok && texts(final(planned)@) == pl && ints(final(plan)@) == pn
                    && texts(final(visiting)@) == texts(old(visiting)@),
                Err(e) => r matches Err(x) && x@ == e,
            },
        decreases self.plugin@.len() - old(visiting)@.len(),
    {
        let ghost ps = self.plugin@;
        let ghost vis0 = texts(visiting@);
        let ghost pl0 = texts(planned@);
        let ghost pn0 = ints(plan@);
        let name = &self.plugin[k].name;
        if contains_text(planned, name.as_str()) {
            return Ok(());
        }
        if contains_text(visiting, name.as_str()) {
            return Err(PluginError::DependencyCycle(name.clone()));
        }
        let ghost vis1 = vis0.push(name@);
        proof {
            assert(has_plugin(ps, name@)) by {
                assert(ps[k as int].name@ == name@);
            }
            assert(vis1.no_duplicates()) by {
                assert forall|a: int, b: int| 0 <= a < b < vis1.len() implies vis1[a] != vis1[b] by {
                    if b == vis0.len() {
                        assert(vis0.contains(vis0[a]));
                    }
                }
            }
            assert forall|i: int| 0 <= i < vis1.len() implies has_plugin(ps, #[trigger] vis1[i]) by {
                if i < vis0.len() {
                    assert(vis1[i] == vis0[i]);
                }
            }
            lemma_path_bound(ps, vis1);
        }
        let ghost before_push = visiting@;
        visiting.push(name.clone());
        assert(texts(visiting@) =~= vis1) by {
            crate::text::lemma_texts_push(before_push, *name);
        }
        let deps = &self.plugin[k].deps;
        let mut j: usize = 0;
        assert(plan_visit(ps, k as int, vis0, pl0, pn0) == match plan_visit_deps(
            ps,
            k as int,
            0,
            vis1,
            pl0,
            pn0,
        ) {
            Err(e) => Err(e),
            Ok((pl, pn)) => Ok((pl.push(name@), pn.push(k as int))),
        });
        while j < deps.len()
            invariant
                ps == self.plugin@,
                vis0 == texts(old(visiting)@),
                pl0 == texts(old(planned)@),
                pn0 == ints(old(plan)@),
                plan_visit(ps, k as int, vis0, pl0, pn0) == match plan_visit_deps(
                    ps,
                    k as int,
                    0,
                    vis1,
                    pl0,
                    pn0,
                ) {
                    Err(e) => Err(e),
                    Ok((pl, pn)) => Ok((pl.push(name@), pn.push(k as int))),
                },
                k < ps.len(),
                *deps == ps[k as int].deps,
                name@ == ps[k as int].name@,
                j <= deps@.len(),
                vis1 == vis0.push(name@),
                texts(visiting@) == vis1,
                vis1.no_duplicates(),
                vis1.len() <= ps.len(),
                forall|i: int| 0 <= i < vis1.len() ==> has_plugin(ps, #[trigger] vis1[i]),
                plan_visit_deps(ps, k as int, 0, vis1, pl0, pn0) == plan_visit_deps(
                    ps,
                    k as int,
                    j as int,
                    vis1,
                    texts(planned@),
                    ints(plan@),
                ),
            decreases deps@.len() - j,
        {
            let d = &deps[j];
            match self.find_plugin_index(d.as_str()) {
                None => {
                    proof {
                        lemma_none_named(ps, d@);
                        lemma_visit_deps_fails(
                            ps,
                            k as int,
                            j as int,
                            vis1,
                            texts(planned@),
                            ints(plan@),
                        );
                    }
                    return Err(PluginError::PluginNotFound(d.clone()));
                },
                Some(t) => {
                    proof {
                        lemma_first_named(ps, d@, t as int);
                    }
                    match self.append_plugin_plan(t, visiting, planned, plan) {
                        Err(e) => {
                            return Err(e);
                        },
                        Ok(()) => {},
                    }
                },
            }
            j = j + 1;
        }
        let ghost before_pop = visiting@;
        visiting.pop();
        assert(texts(visiting@) =~= vis0) by {
            assert(texts(visiting@) =~= texts(before_pop).drop_last());
            assert(vis1.drop_last() =~= vis0);
        }
        let ghost before_planned = planned@;
        planned.push(name.clone());
        proof {
            crate::text::lemma_texts_push(before_planned, *name);
        }
        let ghost before_plan = plan@;
        plan.push(k);
        assert(ints(plan@) =~= ints(before_plan).push(k as int));
        Ok(())
    }

    /// The plugins to run for the task `task_name`, in order: each step
    /// after its dependencies, each plugin once; with `skip_deps`, the
    /// steps alone.
    pub fn plan_task(&self, task_name: &str, skip_deps: bool) -> (r: Result<Vec<usize>, PluginError>)
        ensures
            match r {
                Ok(p) => spec_plan_task(*self, task_name@, skip_deps) == Ok::<
                    Seq<int>,
                    PluginErrorView,
                >(ints(p@)),
                Err(e) => spec_plan_task(*self, task_name@, skip_deps) == Err::<
                    Seq<int>,
                    PluginErrorView,
                >(e@),
            },
    {
        let ghost ps = self.plugin@;
        let task = match self.find_task(task_name) {
            None => {
                proof {
                    lemma_no_task(self.task@, task_name@);
                }
                return Err(PluginError::TaskNotFound(String::from_str(task_name)));
            },
            Some(t) => t,
        };
        proof {
            let i = choose|i: int|
                0 <= i < self.task@.len() && self.task@[i] == *task && task.name@ == task_name@
                    && forall|k: int| 0 <= k < i ==> self.task@[k].name@ != task_name@;
            lemma_first_task(self.task@, task_name@, i);
        }
        let steps = &task.steps;
        let mut planned: Vec<String> = Vec::new();
        let mut plan: Vec<usize> = Vec::new();
        assert(texts(planned@) =~= Seq::<Seq<char>>::empty());
        assert(ints(plan@) =~= Seq::<int>::empty());
        let mut i: usize = 0;
        while i < steps.len()
            invariant
                ps == self.plugin@,
                i <= steps@.len(),
                spec_plan_task(*self, task_name@, skip_deps) == plan_steps(
                    ps,
                    steps@,
                    i as int,
                    skip_deps,
                    texts(planned@),
                    ints(plan@),
                ),
            decreases steps@.len() - i,
        {
            let s = &steps[i];
            match self.find_plugin_index(s.as_str()) {
                None => {
                    proof {
                        lemma_none_named(ps, s@);
                    }
                    return Err(PluginError::StepPluginNotFound(s.clone()));
                },
                Some(t) => {
                    proof {
                        lemma_first_named(ps, s@, t as int);
                    }
                    if skip_deps {
                        let name = &self.plugin[t].name;
                        if !contains_text(&planned, name.as_str()) {
                            let ghost before_planned = planned@;
                            planned.push(name.clone());
                            proof {
                                crate::text::lemma_texts_push(before_planned, *name);
                            }
                            let ghost before_plan = plan@;
                            plan.push(t);
                            assert(ints(plan@) =~= ints(before_plan).push(t as int));
                        }
                    } else {
                        let mut visiting: Vec<String> = Vec::new();
                        assert(texts(visiting@) =~= Seq::<Seq<char>>::empty());
                        match self.append_plugin_plan(t, &mut visiting, &mut planned, &mut plan) {
                            Err(e) => {
                                return Err(e);
                            },
                            Ok(()) => {},
                        }
                    }
                },
            }
            i = i + 1;
        }
        Ok(plan)
    }

    /// Plans plugin `k` after its dependencies (see [`run_visit`]);
    /// returns the error that stops the runs, if any.
    fn run_plugin_with_dependencies(
        &self,
        k: usize,
        trigger: PluginTrigger,
        with_path: bool,
        visiting: &mut Vec<String>,
        executed: &mut Vec<String>,
        runs: &mut Vec<PlannedRun>,
    ) -> (r: Option<PluginError>)
        requires
            k < self.plugin@.len(),
            texts(old(visiting)@).no_duplicates(),
            forall|i: int|
                0 <= i < old(visiting)@.len() ==> has_plugin(
                    self.plugin@,
                    #[trigger] texts(old(visiting)@)[i],
                ),
        ensures
            ({
                let (ex, rn, err) = run_visit(
                    self.plugin@,
                    k as int,
                    trigger,
                    with_path,
                    texts(old(visiting)@),
                    texts(old(executed)@),
                    old(runs)@,
                );
                &&& final(runs)@ == rn
                &&& match err {
                    None => r is None && texts(final(executed)@) == ex && texts(final(visiting)@)
                        == texts(old(visiting)@),
                    Some(e) => r matches Some(x) && x@ == e,
                }
            }),
        decreases self.plugin@.len() - old(visiting)@.len(),
    {
        let ghost ps = self.plugin@;
        let ghost vis0 = texts(visiting@);
        let ghost ex0 = texts(executed@);
        let ghost rn0 = runs@;
        let name = &self.plugin[k].name;
        if contains_text(executed, name.as_str()) {
            return None;
        }
        if contains_text(visiting, name.as_str()) {
            return Some(PluginError::DependencyCycle(name.clone()));
        }
        let ghost vis1 = vis0.push(name@);
        proof {
            assert(has_plugin(ps, name@)) by {
                assert(ps[k as int].name@ == name@);
            }
            assert(vis1.no_duplicates()) by {
                assert forall|a: int, b: int| 0 <= a < b < vis1.len() implies vis1[a] != vis1[b] by {
                    if b == vis0.len() {
                        assert(vis0.contains(vis0[a]));
                    }
                }
            }
            assert forall|i: int| 0 <= i < vis1.len() implies has_plugin(ps, #[trigger] vis1[i]) by {
                if i < vis0.len() {
                    assert(vis1[i] == vis0[i]);
                }
            }
            lemma_path_bound(ps, vis1);
        }
        let ghost before_push = visiting@;
        visiting.push(name.clone());
        assert(texts(visiting@) =~= vis1) by {
            crate::text::lemma_texts_push(before_push, *name);
        }
        let deps = &self.plugin[k].deps;
        let mut j: usize = 0;
        while j < deps.len()
            invariant
                ps == self.plugin@,
                vis0 == texts(old(visiting)@),
                ex0 == texts(old(executed)@),
                rn0 == old(runs)@,
                run_visit(ps, k as int, trigger, with_path, vis0, ex0, rn0) == ({
                    let (ex, rn, err) = run_visit_deps(ps, k as int, 0, vis1, ex0, rn0);
                    if err is Some {
                        (ex, rn, err)
                    } else {
                        (
                            ex.push(name@),
                            rn.push(PlannedRun { plugin: k, trigger, with_path }),
                            None,
                        )
                    }
                }),
                k < ps.len(),
                *deps == ps[k as int].deps,
                name@ == ps[k as int].name@,
                j <= deps@.len(),
                vis1 == vis0.push(name@),
                texts(visiting@) == vis1,
                vis1.no_duplicates(),
                vis1.len() <= ps.len(),
                forall|i: int| 0 <= i < vis1.len() ==> has_plugin(ps, #[trigger] vis1[i]),
                run_visit_deps(ps, k as int, 0, vis1, ex0, rn0) == run_visit_deps(
                    ps,
                    k as int,
                    j as int,
                    vis1,
                    texts(executed@),
                    runs@,
                ),
            decreases deps@.len() - j,
        {
            let d = &deps[j];
            match self.find_plugin_index(d.as_str()) {
                None => {
                    proof {
                        lemma_none_named(ps, d@);
                        lemma_run_deps_fails(
                            ps,
                            k as int,
                            j as int,
                            vis1,
                            texts(executed@),
                            runs@,
                        );
                    }
                    return Some(PluginError::PluginNotFound(d.clone()));
                },
                Some(t) => {
                    proof {
                        lemma_first_named(ps, d@, t as int);
                    }
                    match self.run_plugin_with_dependencies(
                        t,
                        PluginTrigger::Manual,
                        false,
                        visiting,
                        executed,
                        runs,
                    ) {
                        Some(e) => {
                            return Some(e);
                        },
                        None => {},
                    }
                },
            }
            j = j + 1;
        }
        let ghost before_pop = visiting@;
        visiting.pop();
        assert(texts(visiting@) =~= vis0) by {
            assert(texts(visiting@) =~= texts(before_pop).drop_last());
            assert(vis1.drop_last() =~= vis0);
        }
        let ghost before_executed = executed@;
        executed.push(name.clone());
        proof {
            crate::text::lemma_texts_push(before_executed, *name);
        }
        runs.push(PlannedRun { plugin: k, trigger, with_path });
        None
    }

    /// The runs of the manual plugin `plugin_name`: its dependencies, then
    /// the plugin; and the error that stops them.
    pub fn plan_manual_plugin(&self, plugin_name: &str) -> (r: RunPlan)
        ensures
            ({
                let (rn, err) = spec_manual_runs(*self, plugin_name@);
                &&& r.runs@ == rn
                &&& match err {
                    None => r.error is None,
                    Some(e) => r.error matches Some(x) && x@ == e,
                }
            }),
    {
        let k = match self.find_plugin_index(plugin_name) {
            None => {
                proof {
                    lemma_none_named(self.plugin@, plugin_name@);
                }
                return RunPlan {
                    runs: Vec::new(),
                    error: Some(PluginError::PluginNotFound(String::from_str(plugin_name))),
                };
            },
            Some(k) => k,
        };
        proof {
            lemma_first_named(self.plugin@, plugin_name@, k as int);
        }
        if !same_text(self.plugin[k].trigger.as_str(), "manual") {
            return RunPlan {
                runs: Vec::new(),
                error: Some(PluginError::NotManual(String::from_str(plugin_name))),
            };
        }
        let mut visiting: Vec<String> = Vec::new();
        let mut executed: Vec<String> = Vec::new();
        let mut runs: Vec<PlannedRun> = Vec::new();
        assert(texts(visiting@) =~= Seq::<Seq<char>>::empty());
        assert(texts(executed@) =~= Seq::<Seq<char>>::empty());
        let error = self.run_plugin_with_dependencies(
            k,
            PluginTrigger::Manual,
            false,
            &mut visiting,
            &mut executed,
            &mut runs,
        );
        RunPlan { runs, error }
    }

    /// The runs a request with `trigger` on `path` fires: every plugin
    /// with that trigger whose path matches, after its dependencies, each
    /// plugin at most once; and the error that stops them.
    pub fn plan_hooks(&self, trigger: PluginTrigger, path: &WorkspacePath) -> (r: RunPlan)
        ensures
            ({
                let (rn, err) = hook_runs(*self, trigger, *path, 0, Seq::empty(), Seq::empty());
                &&& r.runs@ == rn
                &&& match err {
                    None => r.error is None,
                    Some(e) => r.error matches Some(x) && x@ == e,
                }
            }),
    {
        let mut executed: Vec<String> = Vec::new();
        let mut runs: Vec<PlannedRun> = Vec::new();
        assert(texts(executed@) =~= Seq::<Seq<char>>::empty());
        let mut i: usize = 0;
        while i < self.plugin.len()
            invariant
                i <= self.plugin@.len(),
                hook_runs(*self, trigger, *path, 0, Seq::empty(), Seq::empty()) == hook_runs(
                    *self,
                    trigger,
                    *path,
                    i as int,
                    texts(executed@),
                    runs@,
                ),
            decreases self.plugin@.len() - i,
        {
            let p = &self.plugin[i];
            let t = match parse_trigger(p.trigger.as_str()) {
                Ok(t) => t,
                Err(e) => {
                    return RunPlan { runs, error: Some(e) };
                },
            };
            assert(exists|u: PluginTrigger| u.spec_name() == p.trigger@);
            proof {
                crate::hooks::plugin::lemma_trigger_names_distinct(t, trigger);
            }
            if t == trigger && plugin_matches_path(p, path) {
                let mut visiting: Vec<String> = Vec::new();
                assert(texts(visiting@) =~= Seq::<Seq<char>>::empty());
                match self.run_plugin_with_dependencies(
                    i,
                    trigger,
                    true,
                    &mut visiting,
                    &mut executed,
                    &mut runs,
                ) {
                    Some(e) => {
                        return RunPlan { runs, error: Some(e) };
                    },
                    None => {},
                }
            }
            i = i + 1;
        }
        RunPlan { runs, error: None }
    }
}

} // verus!
