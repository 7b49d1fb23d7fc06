//! Properties of a workflow's execution plan (see `Workflow::execution_order`).

use vstd::prelude::*;

use crate::domain::workflows::{
    WorkflowStep, execution_plan, ready_given, ready_seq, first_index_of, lemma_first_index_of, lemma_unvisited_mono,
    lemma_unvisited_strict, step_deps, step_ids, unvisited, visit_deps_spec, visit_roots_spec,
    visit_spec,
};

verus! {

/// `b` is a dependency of the first step whose identifier is `a`.
pub open spec fn dep_edge(steps: Seq<WorkflowStep>, a: Seq<char>, b: Seq<char>) -> bool {
    let i = first_index_of(step_ids(steps), a);
    0 <= i && step_deps(steps[i]).contains(b)
}

/// Every dependency of every step that the plan reads names a step.
pub open spec fn deps_named(steps: Seq<WorkflowStep>) -> bool {
    forall|a: Seq<char>, b: Seq<char>| #[trigger] dep_edge(steps, a, b) ==> step_ids(steps).contains(b)
}

/// The dependencies form a cycle: a walk of at least one edge that returns
/// to its start.
pub open spec fn dep_cycle(steps: Seq<WorkflowStep>) -> bool {
    exists|p: Seq<Seq<char>>|
        #![trigger p.len()]
        p.len() >= 2 && p[0] == p[p.len() - 1]
            && forall|j: int| 0 <= j < p.len() - 1 ==> #[trigger] dep_edge(steps, p[j], p[j + 1])
}

/// The identifiers of the steps at the given positions.
pub open spec fn plan_ids(steps: Seq<WorkflowStep>, idx: Seq<int>) -> Seq<Seq<char>> {
    idx.map_values(|i: int| step_ids(steps)[i])
}

/// The state of the depth-first walk: the visited identifiers `vis`, the
/// emitted positions `out`, and the identifiers still being visited
/// (`stack`, each a dependency of the one before).
spec fn plan_inv(steps: Seq<WorkflowStep>, vis: Seq<Seq<char>>, out: Seq<int>, stack: Seq<Seq<char>>) -> bool {
    let ids = step_ids(steps);
    let e = plan_ids(steps, out);
    &&& forall|p: int| 0 <= p < out.len() ==> 0 <= #[trigger] out[p] < steps.len() && out[p] == first_index_of(ids, ids[out[p]])
    &&& forall|p: int, q: int| 0 <= p < q < out.len() ==> #[trigger] e[p] != #[trigger] e[q]
    &&& forall|q: int, b: Seq<char>| 0 <= q < out.len() && #[trigger] dep_edge(steps, e[q], b) ==> e.subrange(0, q).contains(b)
    &&& forall|x: Seq<char>| #[trigger] vis.contains(x) ==> ids.contains(x) && (e.contains(x) || stack.contains(x))
    &&& forall|x: Seq<char>| #[trigger] e.contains(x) ==> vis.contains(x)
    &&& forall|x: Seq<char>| #[trigger] stack.contains(x) ==> vis.contains(x) && !e.contains(x)
    &&& forall|j: int| 0 <= j < stack.len() - 1 ==> #[trigger] dep_edge(steps, stack[j], stack[j + 1])
}

/// What a successful visit leaves: the walk state is still sound, the new
/// positions extend the old ones, and nothing visited is forgotten.
spec fn grows(steps: Seq<WorkflowStep>, vis: Seq<Seq<char>>, out: Seq<int>, v2: Seq<Seq<char>>, o2: Seq<int>) -> bool {
    &&& out.len() <= o2.len()
    &&& o2.subrange(0, out.len() as int) == out
    &&& forall|x: Seq<char>| #[trigger] vis.contains(x) ==> v2.contains(x)
}

proof fn lemma_grows_keeps_emitted(steps: Seq<WorkflowStep>, out: Seq<int>, o2: Seq<int>, x: Seq<char>)
    requires
        out.len() <= o2.len(),
        o2.subrange(0, out.len() as int) == out,
        plan_ids(steps, out).contains(x),
    ensures
        plan_ids(steps, o2).contains(x),
{
    let p = choose|p: int| 0 <= p < plan_ids(steps, out).len() && plan_ids(steps, out)[p] == x;
    assert(o2[p] == o2.subrange(0, out.len() as int)[p]);
    assert(plan_ids(steps, o2)[p] == x);
}

proof fn lemma_visit_ok(
    steps: Seq<WorkflowStep>,
    id: Seq<char>,
    vis: Seq<Seq<char>>,
    out: Seq<int>,
    fuel: nat,
    stack: Seq<Seq<char>>,
)
    requires
        deps_named(steps),
        !dep_cycle(steps),
        plan_inv(steps, vis, out, stack),
        step_ids(steps).contains(id),
        fuel > unvisited(step_ids(steps), vis),
        stack.len() > 0 ==> dep_edge(steps, stack[stack.len() - 1], id),
    ensures
        visit_spec(steps, id, vis, out, fuel) matches Ok(st) && plan_inv(steps, st.0, st.1, stack)
            && plan_ids(steps, st.1).contains(id) && grows(steps, vis, out, st.0, st.1),
    decreases fuel, 0int, 0int,
{
    let ids = step_ids(steps);
    let e = plan_ids(steps, out);
    if vis.contains(id) {
        if stack.contains(id) {
            let j = choose|j: int| 0 <= j < stack.len() && stack[j] == id;
            let p = stack.subrange(j, stack.len() as int).push(id);
            assert forall|q: int| 0 <= q < p.len() - 1 implies #[trigger] dep_edge(steps, p[q], p[q + 1]) by {
                if q < p.len() - 2 {
                    assert(p[q] == stack[j + q]);
                    assert(p[q + 1] == stack[j + q + 1]);
                } else {
                    assert(p[q] == stack[stack.len() - 1]);
                }
            }
            assert(p[0] == p[p.len() - 1]);
            assert(dep_cycle(steps));
        }
        assert(out.subrange(0, out.len() as int) =~= out);
    } else {
        lemma_first_index_of(ids, id);
        let i = first_index_of(ids, id);
        let vis1 = vis.push(id);
        let stack1 = stack.push(id);
        assert(ids[i] == id);
        assert(vis1.contains(id)) by {
            assert(vis1[vis1.len() - 1] == id);
        }
        assert forall|x: Seq<char>| vis.contains(x) implies vis1.contains(x) by {
            let q = choose|q: int| 0 <= q < vis.len() && vis[q] == x;
            assert(vis1[q] == x);
        }
        lemma_unvisited_strict(ids, vis, vis1, i);
        assert(stack1.contains(id)) by {
            assert(stack1[stack1.len() - 1] == id);
        }
        assert(plan_inv(steps, vis1, out, stack1)) by {
            assert forall|x: Seq<char>| #[trigger] vis1.contains(x) implies ids.contains(x) && (e.contains(x) || stack1.contains(x)) by {
                if x != id {
                    let q = choose|q: int| 0 <= q < vis1.len() && vis1[q] == x;
                    assert(vis[q] == x);
                    assert(vis.contains(x));
                    if stack.contains(x) {
                        let r = choose|r: int| 0 <= r < stack.len() && stack[r] == x;
                        assert(stack1[r] == x);
                    }
                }
            }
            assert forall|x: Seq<char>| #[trigger] stack1.contains(x) implies vis1.contains(x) && !e.contains(x) by {
                let r = choose|r: int| 0 <= r < stack1.len() && stack1[r] == x;
                if r < stack.len() {
                    assert(stack[r] == x);
                    assert(stack.contains(x));
                } else {
                    assert(x == id);
                }
            }
            assert forall|j: int| 0 <= j < stack1.len() - 1 implies #[trigger] dep_edge(steps, stack1[j], stack1[j + 1]) by {
                if j < stack.len() - 1 {
                    assert(stack1[j] == stack[j] && stack1[j + 1] == stack[j + 1]);
                } else {
                    assert(stack1[j] == stack[stack.len() - 1]);
                    assert(stack1[j + 1] == id);
                }
            }
        }
        let deps = step_deps(steps[i]);
        assert forall|k: int| 0 <= k < deps.len() implies dep_edge(steps, stack1[stack1.len() - 1], #[trigger] deps[k]) by {
            assert(deps.contains(deps[k]));
        }
        lemma_visit_deps_ok(steps, deps, vis1, out, (fuel - 1) as nat, stack1);
        let st = visit_deps_spec(steps, deps, vis1, out, (fuel - 1) as nat)->Ok_0;
        let v2 = st.0;
        let o2 = st.1;
        let e2 = plan_ids(steps, o2);
        let o3 = o2.push(i);
        let e3 = plan_ids(steps, o3);
        assert(e3 =~= e2.push(id));
        assert(!e2.contains(id));
        assert(plan_inv(steps, v2, o3, stack)) by {
            assert forall|p: int| 0 <= p < o3.len() implies 0 <= #[trigger] o3[p] < steps.len() && o3[p] == first_index_of(ids, ids[o3[p]]) by {
                if p < o2.len() {
                    assert(o3[p] == o2[p]);
                }
            }
            assert forall|p: int, q: int| 0 <= p < q < o3.len() implies #[trigger] e3[p] != #[trigger] e3[q] by {
                if q < o2.len() {
                    assert(e3[p] == e2[p] && e3[q] == e2[q]);
                } else {
                    assert(e3[p] == e2[p]);
                    assert(e2.contains(e2[p]));
                }
            }
            assert forall|q: int, b: Seq<char>| 0 <= q < o3.len() && #[trigger] dep_edge(steps, e3[q], b) implies e3.subrange(0, q).contains(b) by {
                if q < o2.len() {
                    assert(e3[q] == e2[q]);
                    assert(e3.subrange(0, q) =~= e2.subrange(0, q));
                } else {
                    assert(e3[q] == id);
                    assert(e3.subrange(0, q) =~= e2);
                    assert(deps.contains(b));
                    let k = choose|k: int| 0 <= k < deps.len() && deps[k] == b;
                    assert(e2.contains(deps[k]));
                }
            }
            assert forall|x: Seq<char>| #[trigger] v2.contains(x) implies ids.contains(x) && (e3.contains(x) || stack.contains(x)) by {
                if x == id {
                    assert(e3[e3.len() - 1] == id);
                } else {
                    if e2.contains(x) {
                        let p = choose|p: int| 0 <= p < e2.len() && e2[p] == x;
                        assert(e3[p] == x);
                    } else {
                        assert(stack1.contains(x));
                        let r = choose|r: int| 0 <= r < stack1.len() && stack1[r] == x;
                        assert(r < stack.len());
                        assert(stack[r] == x);
                    }
                }
            }
            assert forall|x: Seq<char>| #[trigger] e3.contains(x) implies v2.contains(x) by {
                let p = choose|p: int| 0 <= p < e3.len() && e3[p] == x;
                if p < e2.len() {
                    assert(e2[p] == x);
                    assert(e2.contains(x));
                } else {
                    assert(vis1.contains(id));
                }
            }
            assert forall|x: Seq<char>| #[trigger] stack.contains(x) implies v2.contains(x) && !e3.contains(x) by {
                let r = choose|r: int| 0 <= r < stack.len() && stack[r] == x;
                assert(stack1[r] == x);
                assert(stack1.contains(x));
                assert(vis.contains(x));
                if e3.contains(x) {
                    let p = choose|p: int| 0 <= p < e3.len() && e3[p] == x;
                    if p < e2.len() {
                        assert(e2[p] == x);
                        assert(e2.contains(x));
                    }
                }
            }
        }
        assert(e3[e3.len() - 1] == id);
        assert(o3.subrange(0, out.len() as int) =~= o2.subrange(0, out.len() as int));
    }
}

proof fn lemma_visit_deps_ok(
    steps: Seq<WorkflowStep>,
    deps: Seq<Seq<char>>,
    vis: Seq<Seq<char>>,
    out: Seq<int>,
    fuel: nat,
    stack: Seq<Seq<char>>,
)
    requires
        deps_named(steps),
        !dep_cycle(steps),
        plan_inv(steps, vis, out, stack),
        stack.len() > 0,
        forall|k: int| 0 <= k < deps.len() ==> dep_edge(steps, stack[stack.len() - 1], #[trigger] deps[k]),
        fuel > unvisited(step_ids(steps), vis),
    ensures
        visit_deps_spec(steps, deps, vis, out, fuel) matches Ok(st) && plan_inv(steps, st.0, st.1, stack)
            && (forall|k: int| 0 <= k < deps.len() ==> plan_ids(steps, st.1).contains(#[trigger] deps[k]))
            && grows(steps, vis, out, st.0, st.1),
    decreases fuel, 1int, deps.len(),
{
    if deps.len() == 0 {
        assert(out.subrange(0, out.len() as int) =~= out);
    } else {
        let d = deps.drop_last();
        assert forall|k: int| 0 <= k < d.len() implies dep_edge(steps, stack[stack.len() - 1], #[trigger] d[k]) by {
            assert(d[k] == deps[k]);
        }
        lemma_visit_deps_ok(steps, d, vis, out, fuel, stack);
        let st = visit_deps_spec(steps, d, vis, out, fuel)->Ok_0;
        lemma_unvisited_mono(step_ids(steps), vis, st.0);
        let last = deps[deps.len() - 1];
        assert(dep_edge(steps, stack[stack.len() - 1], last));
        lemma_visit_ok(steps, last, st.0, st.1, fuel, stack);
        let st2 = visit_spec(steps, last, st.0, st.1, fuel)->Ok_0;
        assert forall|k: int| 0 <= k < deps.len() implies plan_ids(steps, st2.1).contains(#[trigger] deps[k]) by {
            if k < deps.len() - 1 {
                assert(d[k] == deps[k]);
                lemma_grows_keeps_emitted(steps, st.1, st2.1, deps[k]);
            }
        }
        assert(st2.1.subrange(0, out.len() as int) =~= st.1.subrange(0, out.len() as int)) by {
            assert forall|q: int| 0 <= q < out.len() implies st2.1[q] == st.1[q] by {
                assert(st2.1[q] == st2.1.subrange(0, st.1.len() as int)[q]);
            }
        }
    }
}

proof fn lemma_roots_ok(steps: Seq<WorkflowStep>, k: int)
    requires
        deps_named(steps),
        !dep_cycle(steps),
        0 <= k <= steps.len(),
    ensures
        visit_roots_spec(steps, k) matches Ok(st) && plan_inv(steps, st.0, st.1, seq![])
            && forall|j: int| 0 <= j < k ==> plan_ids(steps, st.1).contains(#[trigger] step_ids(steps)[j]),
    decreases k,
{
    let ids = step_ids(steps);
    if k == 0 {
        let e = plan_ids(steps, seq![]);
        assert(e =~= Seq::<Seq<char>>::empty());
    } else {
        lemma_roots_ok(steps, k - 1);
        let st = visit_roots_spec(steps, k - 1)->Ok_0;
        lemma_unvisited_mono(ids, st.0, st.0);
        assert(ids[k - 1] == steps[k - 1].id@);
        assert(ids.contains(steps[k - 1].id@));
        lemma_visit_ok(steps, steps[k - 1].id@, st.0, st.1, (steps.len() + 1) as nat, seq![]);
        let st2 = visit_spec(steps, steps[k - 1].id@, st.0, st.1, (steps.len() + 1) as nat)->Ok_0;
        assert forall|j: int| 0 <= j < k implies plan_ids(steps, st2.1).contains(#[trigger] ids[j]) by {
            if j < k - 1 {
                lemma_grows_keeps_emitted(steps, st.1, st2.1, ids[j]);
            }
        }
    }
}

/// When every dependency names a step and the dependencies form no cycle,
/// the execution plan exists; it takes each identifier through its first
/// step, lists each identifier once, covers every step's identifier, and
/// puts every dependency of a step before that step.
pub proof fn lemma_execution_plan_is_topological(steps: Seq<WorkflowStep>)
    requires
        deps_named(steps),
        !dep_cycle(steps),
    ensures
        execution_plan(steps) matches Ok(idx) && {
            let ids = step_ids(steps);
            let e = plan_ids(steps, idx);
            &&& forall|p: int| 0 <= p < idx.len() ==> 0 <= #[trigger] idx[p] < steps.len() && idx[p] == first_index_of(ids, ids[idx[p]])
            &&& forall|p: int, q: int| 0 <= p < q < idx.len() ==> #[trigger] e[p] != #[trigger] e[q]
            &&& forall|j: int| 0 <= j < steps.len() ==> e.contains(#[trigger] ids[j])
            &&& forall|q: int, b: Seq<char>| 0 <= q < idx.len() && #[trigger] dep_edge(steps, e[q], b) ==> e.subrange(0, q).contains(b)
        },
{
    lemma_roots_ok(steps, steps.len() as int);
}

proof fn lemma_visit_err(steps: Seq<WorkflowStep>, id: Seq<char>, vis: Seq<Seq<char>>, out: Seq<int>, fuel: nat)
    requires
        fuel > unvisited(step_ids(steps), vis),
    ensures
        match visit_spec(steps, id, vis, out, fuel) {
            Ok(st) => forall|x: Seq<char>| #[trigger] vis.contains(x) ==> st.0.contains(x),
            Err(e) => !step_ids(steps).contains(e),
        },
    decreases fuel, 0int, 0int,
{
    let ids = step_ids(steps);
    if !vis.contains(id) {
        lemma_first_index_of(ids, id);
        let i = first_index_of(ids, id);
        if i >= 0 {
            let vis1 = vis.push(id);
            assert(ids[i] == id);
            assert(vis1.contains(id)) by {
                assert(vis1[vis1.len() - 1] == id);
            }
            assert forall|x: Seq<char>| vis.contains(x) implies vis1.contains(x) by {
                let q = choose|q: int| 0 <= q < vis.len() && vis[q] == x;
                assert(vis1[q] == x);
            }
            lemma_unvisited_strict(ids, vis, vis1, i);
            lemma_visit_deps_err(steps, step_deps(steps[i]), vis1, out, (fuel - 1) as nat);
        }
    }
}

proof fn lemma_visit_deps_err(steps: Seq<WorkflowStep>, deps: Seq<Seq<char>>, vis: Seq<Seq<char>>, out: Seq<int>, fuel: nat)
    requires
        fuel > unvisited(step_ids(steps), vis),
    ensures
        match visit_deps_spec(steps, deps, vis, out, fuel) {
            Ok(st) => forall|x: Seq<char>| #[trigger] vis.contains(x) ==> st.0.contains(x),
            Err(e) => !step_ids(steps).contains(e),
        },
    decreases fuel, 1int, deps.len(),
{
    if deps.len() > 0 {
        lemma_visit_deps_err(steps, deps.drop_last(), vis, out, fuel);
        if let Ok(st) = visit_deps_spec(steps, deps.drop_last(), vis, out, fuel) {
            lemma_unvisited_mono(step_ids(steps), vis, st.0);
            lemma_visit_err(steps, deps[deps.len() - 1], st.0, st.1, fuel);
        }
    }
}

proof fn lemma_roots_err(steps: Seq<WorkflowStep>, k: int)
    requires
        0 <= k <= steps.len(),
    ensures
        visit_roots_spec(steps, k) matches Err(e) ==> !step_ids(steps).contains(e),
    decreases k,
{
    if k > 0 {
        lemma_roots_err(steps, k - 1);
        if let Ok(st) = visit_roots_spec(steps, k - 1) {
            lemma_unvisited_mono(step_ids(steps), st.0, st.0);
            lemma_visit_err(steps, steps[k - 1].id@, st.0, st.1, (steps.len() + 1) as nat);
        }
    }
}

/// The execution plan fails only on an identifier that names no step.
pub proof fn lemma_execution_plan_err_names_no_step(steps: Seq<WorkflowStep>)
    ensures
        execution_plan(steps) matches Err(id) ==> !step_ids(steps).contains(id),
{
    lemma_roots_err(steps, steps.len() as int);
}

/// Every step that a run takes in a wave is a step of the workflow that is
/// not yet completed and whose dependencies have all completed; and a step
/// that is ready in this sense is in the wave.
pub proof fn lemma_wave_steps_are_ready(steps: Seq<WorkflowStep>, completed: Seq<Seq<char>>)
    ensures
        forall|j: int| 0 <= j < ready_seq(steps, completed).len() ==> {
            let s = #[trigger] ready_seq(steps, completed)[j];
            ready_given(s, completed) && steps.contains(s)
        },
        forall|i: int| 0 <= i < steps.len() && ready_given(#[trigger] steps[i], completed) ==> ready_seq(steps, completed).contains(steps[i]),
    decreases steps.len(),
{
    if steps.len() > 0 {
        let d = steps.drop_last();
        lemma_wave_steps_are_ready(d, completed);
        let w = ready_seq(steps, completed);
        let wd = ready_seq(d, completed);
        assert forall|j: int| 0 <= j < w.len() implies ready_given(#[trigger] w[j], completed) && steps.contains(w[j]) by {
            if j < wd.len() {
                assert(w[j] == wd[j]);
                let k = choose|k: int| 0 <= k < d.len() && d[k] == wd[j];
                assert(steps[k] == d[k]);
            } else {
                assert(steps[steps.len() - 1] == steps.last());
            }
        }
        assert forall|i: int| 0 <= i < steps.len() && ready_given(#[trigger] steps[i], completed) implies w.contains(steps[i]) by {
            if i < steps.len() - 1 {
                assert(d[i] == steps[i]);
                let k = choose|k: int| 0 <= k < wd.len() && wd[k] == d[i];
                assert(w[k] == wd[k]);
            } else {
                assert(w[w.len() - 1] == steps.last());
            }
        }
    }
}

} // verus!
