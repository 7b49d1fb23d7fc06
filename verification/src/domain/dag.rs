//! Dependency resolution for workflows: validation, parallel execution
//! layers (Kahn's algorithm), a stable topological order, cycle reporting,
//! and reachability queries.

use vstd::prelude::*;
use vstd::set_lib::{lemma_int_range, lemma_len_subset, set_int_range};

use crate::domain::errors::TaskError;
use crate::domain::workflows::{
    duplicate_steps, same_step, same_steps, step_deps, step_ids, Workflow, WorkflowStep,
};
use crate::text::{clone_strings, push_str, sort_distinct_strings, strictly_sorted, views};

verus! {

/// Errors specific to DAG resolution.
#[derive(Debug, PartialEq, Eq)]
pub enum DagError {
    /// A step depends on a non-existent step.
    MissingDependency { step: String, missing: String },
    /// Two steps share the same id.
    DuplicateId(String),
    /// A step depends on itself directly.
    SelfLoop(String),
    /// The graph contains a cycle; the path follows dependency edges.
    Cycle(Vec<String>),
    /// The graph is empty.
    Empty,
}

/// Identifiers joined by `" -> "`.
pub open spec fn join_arrow(s: Seq<Seq<char>>) -> Seq<char>
    decreases s.len(),
{
    if s.len() == 0 {
        seq![]
    } else if s.len() == 1 {
        s[0]
    } else {
        join_arrow(s.drop_last()) + " -> "@ + s.last()
    }
}

/// The message of a DAG error (what `Display` renders).
pub open spec fn dag_error_message(e: DagError) -> Seq<char> {
    match e {
        DagError::MissingDependency { step, missing } =>
            "step '"@ + step@ + "' depends on unknown step '"@ + missing@ + "'"@,
        DagError::DuplicateId(id) => "duplicate step id: '"@ + id@ + "'"@,
        DagError::SelfLoop(id) => "step '"@ + id@ + "' depends on itself"@,
        DagError::Cycle(path) => "workflow contains cycle: "@ + join_arrow(views(path@)),
        DagError::Empty => "workflow has no steps"@,
    }
}

/// Appends the identifiers of `path` joined by `" -> "`.
fn push_joined(out: &mut String, path: &Vec<String>)
    ensures
        final(out)@ == old(out)@ + join_arrow(views(path@)),
{
    let ghost start = out@;
    let mut i: usize = 0;
    proof {
        assert(views(path@).take(0) =~= Seq::<Seq<char>>::empty());
        assert(out@ =~= start + join_arrow(views(path@).take(0)));
    }
    while i < path.len()
        invariant
            i <= path@.len(),
            out@ == start + join_arrow(views(path@).take(i as int)),
        decreases path.len() - i,
    {
        let ghost before = out@;
        if i > 0 {
            push_str(out, " -> ");
        }
        push_str(out, path[i].as_str());
        proof {
            let t = views(path@).take(i + 1);
            assert(t.drop_last() =~= views(path@).take(i as int));
            assert(t.last() == path@[i as int]@);
            if i == 0 {
                assert(join_arrow(t) == t[0]);
                assert(out@ =~= start + join_arrow(t));
            } else {
                assert(out@ =~= start + join_arrow(t));
            }
        }
        i = i + 1;
    }
    proof {
        assert(views(path@).take(path@.len() as int) =~= views(path@));
    }
}

impl DagError {
    /// The human-readable message (what `Display` renders).
    pub fn to_string(&self) -> (r: String)
        ensures
            r@ == dag_error_message(*self),
    {
        match self {
            DagError::MissingDependency { step, missing } => {
                let mut r = String::from_str("step '");
                push_str(&mut r, step.as_str());
                push_str(&mut r, "' depends on unknown step '");
                push_str(&mut r, missing.as_str());
                push_str(&mut r, "'");
                r
            },
            DagError::DuplicateId(id) => {
                let mut r = String::from_str("duplicate step id: '");
                push_str(&mut r, id.as_str());
                push_str(&mut r, "'");
                r
            },
            DagError::SelfLoop(id) => {
                let mut r = String::from_str("step '");
                push_str(&mut r, id.as_str());
                push_str(&mut r, "' depends on itself");
                r
            },
            DagError::Cycle(path) => {
                let mut r = String::from_str("workflow contains cycle: ");
                push_joined(&mut r, path);
                r
            },
            DagError::Empty => String::from_str("workflow has no steps"),
        }
    }
}

impl From<DagError> for TaskError {
    /// A DAG error becomes an invalid-operation task error carrying its message.
    fn from(e: DagError) -> (r: TaskError)
        ensures
            r matches TaskError::InvalidOperation(m) && m@ == dag_error_message(e),
    {
        TaskError::InvalidOperation(e.to_string())
    }
}

impl vstd::std_specs::convert::FromSpecImpl<DagError> for TaskError {
    open spec fn obeys_from_spec() -> bool {
        false
    }

    open spec fn from_spec(e: DagError) -> TaskError {
        TaskError::InvalidOperation(choose|m: String| m@ == dag_error_message(e))
    }
}

// ---------------------------------------------------------------------------
// The graph of a workflow
// ---------------------------------------------------------------------------

/// A workflow graph as the DAG sees it: per step, in workflow order, its
/// identifier and the identifiers it depends on.
pub type StepGraph = Seq<(Seq<char>, Seq<Seq<char>>)>;

/// The graph of a list of steps.
pub open spec fn graph_of(steps: Seq<WorkflowStep>) -> StepGraph {
    steps.map_values(|s: WorkflowStep| (s.id@, step_deps(s)))
}

/// The identifiers of a graph's steps, in order.
pub open spec fn node_ids(g: StepGraph) -> Seq<Seq<char>> {
    g.map_values(|e: (Seq<char>, Seq<Seq<char>>)| e.0)
}

/// Steps that agree field by field have the same graph.
pub proof fn lemma_same_steps_graph(a: Seq<WorkflowStep>, b: Seq<WorkflowStep>)
    requires
        same_steps(a, b),
    ensures
        graph_of(a) == graph_of(b),
{
    assert(graph_of(a) =~= graph_of(b)) by {
        assert forall|i: int| 0 <= i < a.len() implies graph_of(a)[i] == graph_of(b)[i] by {
            assert(same_step(a[i], b[i]));
        }
    }
}

// ---------------------------------------------------------------------------
// Validation
// ---------------------------------------------------------------------------

/// The first position whose identifier already occurred earlier, scanning
/// from `i`, or `-1`.
pub open spec fn first_dup_from(ids: Seq<Seq<char>>, i: int) -> int
    decreases ids.len() - i,
{
    if i < 0 || i >= ids.len() {
        -1
    } else if ids.take(i).contains(ids[i]) {
        i
    } else {
        first_dup_from(ids, i + 1)
    }
}

/// A dependency of step `i` that is rejected: the step itself, or no step.
pub open spec fn bad_dep(g: StepGraph, i: int, d: Seq<char>) -> bool {
    d == g[i].0 || !node_ids(g).contains(d)
}

/// The first rejected dependency of step `i` at or after position `k`, or `-1`.
pub open spec fn first_bad_dep_from(g: StepGraph, i: int, k: int) -> int
    decreases g[i].1.len() - k,
{
    if k < 0 || k >= g[i].1.len() {
        -1
    } else if bad_dep(g, i, g[i].1[k]) {
        k
    } else {
        first_bad_dep_from(g, i, k + 1)
    }
}

/// The first step at or after `i` with a rejected dependency, or `-1`.
pub open spec fn first_bad_step_from(g: StepGraph, i: int) -> int
    decreases g.len() - i,
{
    if i < 0 || i >= g.len() {
        -1
    } else if first_bad_dep_from(g, i, 0) >= 0 {
        i
    } else {
        first_bad_step_from(g, i + 1)
    }
}

/// Steps that pass validation: at least one step, distinct identifiers, and
/// every dependency names another existing step.
pub open spec fn valid_graph(g: StepGraph) -> bool {
    &&& g.len() > 0
    &&& first_dup_from(node_ids(g), 0) == -1
    &&& first_bad_step_from(g, 0) == -1
}

// ---------------------------------------------------------------------------
// Layers
// ---------------------------------------------------------------------------

/// All dependencies of a step lie in `done`.
pub open spec fn deps_within(s: (Seq<char>, Seq<Seq<char>>), done: Set<Seq<char>>) -> bool {
    forall|k: int| 0 <= k < s.1.len() ==> done.contains(#[trigger] s.1[k])
}

/// The identifiers, in workflow order, of the steps not in `done` whose
/// dependencies all are.
pub open spec fn fresh_ids(g: StepGraph, done: Set<Seq<char>>) -> Seq<Seq<char>>
    decreases g.len(),
{
    if g.len() == 0 {
        seq![]
    } else {
        let rest = fresh_ids(g.drop_last(), done);
        if !done.contains(g.last().0) && deps_within(g.last(), done) {
            rest.push(g.last().0)
        } else {
            rest
        }
    }
}

/// The identifiers placed in the layers before layer `k`.
pub open spec fn done_before(g: StepGraph, k: nat) -> Set<Seq<char>>
    decreases k,
{
    if k == 0 {
        Set::empty()
    } else {
        let d = done_before(g, (k - 1) as nat);
        d + fresh_ids(g, d).to_set()
    }
}

/// Layer `k`: the steps whose dependencies all lie in earlier layers, in
/// workflow order.
pub open spec fn layer_ids(g: StepGraph, k: nat) -> Seq<Seq<char>> {
    fresh_ids(g, done_before(g, k))
}

/// The number of non-empty layers counted from `k` (at most one per step).
pub open spec fn layer_count_from(g: StepGraph, k: nat) -> nat
    decreases g.len() - k,
{
    if k >= g.len() || layer_ids(g, k).len() == 0 {
        k
    } else {
        layer_count_from(g, k + 1)
    }
}

/// The number of layers.
pub open spec fn layer_count(g: StepGraph) -> nat {
    layer_count_from(g, 0)
}

/// Every step is placed in some layer: the dependency graph has no cycle.
pub open spec fn all_layered(g: StepGraph) -> bool {
    forall|i: int| 0 <= i < g.len() ==> done_before(g, layer_count(g)).contains(#[trigger] g[i].0)
}

/// Layer `k` in increasing `String` order.
pub open spec fn sorted_layer(g: StepGraph, k: nat) -> Seq<Seq<char>> {
    choose|t: Seq<Seq<char>>| strictly_sorted(t) && t.to_set() == layer_ids(g, k).to_set()
}

/// The topological order: the layers before `k`, each in increasing order.
pub open spec fn topo_ids(g: StepGraph, k: nat) -> Seq<Seq<char>>
    decreases k,
{
    if k == 0 {
        seq![]
    } else {
        topo_ids(g, (k - 1) as nat) + sorted_layer(g, (k - 1) as nat)
    }
}

/// Step `c` depends directly on step `v` (by position).
pub open spec fn depends_on_index(g: StepGraph, c: int, v: int) -> bool {
    g[c].1.contains(g[v].0)
}

// ---------------------------------------------------------------------------
// Cycle path
// ---------------------------------------------------------------------------

/// The properties of a reported cycle path: it is closed (its last step is
/// its first, and it has at least two entries), passes no step twice before
/// closing, stays among the steps left out of the layers, and each element
/// after the first depends on its predecessor.
pub open spec fn cycle_path_ok(g: StepGraph, path: Seq<Seq<char>>) -> bool {
    let done = done_before(g, layer_count(g));
    &&& path.len() >= 2
    &&& path[0] == path[path.len() - 1]
    &&& path.drop_last().no_duplicates()
    &&& forall|j: int| 0 <= j < path.len() ==> node_ids(g).contains(#[trigger] path[j]) && !done.contains(path[j])
    &&& forall|j: int| #![trigger path[j]] 0 <= j < path.len() - 1 ==> linked(g, path[j], path[j + 1])
}

/// Some step with identifier `b` depends on `a`.
pub open spec fn linked(g: StepGraph, a: Seq<char>, b: Seq<char>) -> bool {
    exists|c: int| 0 <= c < g.len() && g[c].0 == b && #[trigger] g[c].1.contains(a)
}

// ---------------------------------------------------------------------------
// The precomputed DAG
// ---------------------------------------------------------------------------

/// A validated workflow graph with its parallel execution layers.
#[derive(Debug)]
pub struct ExecutionDag {
    steps: Vec<WorkflowStep>,
    layers: Vec<Vec<String>>,
    layer_of: Vec<usize>,
    topo: Vec<String>,
    dependents: Vec<Vec<usize>>,
}

impl ExecutionDag {
    /// The steps of the DAG, in workflow order.
    pub closed spec fn step_list(self) -> Seq<WorkflowStep> {
        self.steps@
    }

    #[verifier::type_invariant]
    spec fn inv(self) -> bool {
        let g = graph_of(self.steps@);
        let n = g.len();
        let l = layer_count(g);
        &&& valid_graph(g)
        &&& all_layered(g)
        &&& self.layers@.len() == l
        &&& forall|k: int| 0 <= k < l ==> views(#[trigger] self.layers@[k]@) == layer_ids(g, k as nat)
        &&& self.layer_of@.len() == n
        &&& forall|i: int| 0 <= i < n ==> (#[trigger] self.layer_of@[i]) < l
            && layer_ids(g, self.layer_of@[i] as nat).contains(g[i].0)
        &&& views(self.topo@) == topo_ids(g, l)
        &&& forall|k: nat| k < l ==> #[trigger] sorted_layer(g, k).to_set() == layer_ids(g, k).to_set()
        &&& self.dependents@.len() == n
        &&& forall|v: int, j: int| 0 <= v < n && 0 <= j < self.dependents@[v]@.len() ==> (#[trigger] self.dependents@[v]@[j]) < n
        &&& forall|v: int, c: int| 0 <= v < n && 0 <= c < n ==>
            (self.dependents@[v]@.contains(c as usize) <==> #[trigger] depends_on_index(g, c, v))
    }
}


// ---------------------------------------------------------------------------
// Lemmas
// ---------------------------------------------------------------------------

proof fn lemma_first_dup_none(ids: Seq<Seq<char>>, i: int)
    requires
        0 <= i,
        first_dup_from(ids, i) == -1,
    ensures
        forall|j: int| i <= j < ids.len() ==> !(#[trigger] ids.take(j)).contains(ids[j]),
    decreases ids.len() - i,
{
    if i < ids.len() {
        lemma_first_dup_none(ids, i + 1);
    }
}

/// Identifiers that pass the duplicate check are distinct.
proof fn lemma_ids_distinct(ids: Seq<Seq<char>>)
    requires
        first_dup_from(ids, 0) == -1,
    ensures
        ids.no_duplicates(),
{
    lemma_first_dup_none(ids, 0);
    assert forall|a: int, b: int| 0 <= a < ids.len() && 0 <= b < ids.len() && a != b implies ids[a] != ids[b] by {
        let (lo, hi) = if a < b { (a, b) } else { (b, a) };
        if ids[lo] == ids[hi] {
            assert(ids.take(hi)[lo] == ids[hi]);
            assert(ids.take(hi).contains(ids[hi]));
        }
    }
}

/// Membership in `fresh_ids`.
proof fn lemma_fresh_ids(g: StepGraph, done: Set<Seq<char>>)
    ensures
        forall|x: Seq<char>| fresh_ids(g, done).contains(x) <==> exists|i: int|
            0 <= i < g.len() && #[trigger] g[i].0 == x && !done.contains(x) && deps_within(g[i], done),
        fresh_ids(g, done).len() <= g.len(),
    decreases g.len(),
{
    if g.len() > 0 {
        let pre = g.drop_last();
        lemma_fresh_ids(pre, done);
        let f = fresh_ids(g, done);
        let fp = fresh_ids(pre, done);
        assert forall|x: Seq<char>| f.contains(x) <==> exists|i: int|
            0 <= i < g.len() && #[trigger] g[i].0 == x && !done.contains(x) && deps_within(g[i], done) by {
            if f.contains(x) {
                let p = choose|p: int| 0 <= p < f.len() && f[p] == x;
                if p < fp.len() {
                    assert(fp[p] == x);
                    assert(fp.contains(x));
                    let i = choose|i: int| 0 <= i < pre.len() && #[trigger] pre[i].0 == x && !done.contains(x) && deps_within(pre[i], done);
                    assert(g[i] == pre[i]);
                } else {
                    assert(g[g.len() - 1].0 == x);
                }
            }
            if exists|i: int| 0 <= i < g.len() && #[trigger] g[i].0 == x && !done.contains(x) && deps_within(g[i], done) {
                let i = choose|i: int| 0 <= i < g.len() && #[trigger] g[i].0 == x && !done.contains(x) && deps_within(g[i], done);
                if i < g.len() - 1 {
                    assert(pre[i] == g[i]);
                    assert(fp.contains(x));
                    let p = choose|p: int| 0 <= p < fp.len() && fp[p] == x;
                    assert(f[p] == x);
                } else {
                    assert(f[f.len() - 1] == x);
                }
            }
        }
    }
}

/// `done_before` only ever holds step identifiers, and it grows with `k`.
proof fn lemma_done_before(g: StepGraph, k: nat)
    ensures
        forall|x: Seq<char>| done_before(g, k).contains(x) ==> node_ids(g).contains(x),
        forall|j: nat| j <= k ==> done_before(g, j).subset_of(#[trigger] done_before(g, k)),
    decreases k,
{
    if k > 0 {
        let km = (k - 1) as nat;
        lemma_done_before(g, km);
        lemma_fresh_ids(g, done_before(g, km));
        assert forall|x: Seq<char>| done_before(g, k).contains(x) implies node_ids(g).contains(x) by {
            if !done_before(g, km).contains(x) {
                assert(fresh_ids(g, done_before(g, km)).contains(x));
                let i = choose|i: int| 0 <= i < g.len() && #[trigger] g[i].0 == x && !done_before(g, km).contains(x) && deps_within(g[i], done_before(g, km));
                assert(node_ids(g)[i] == x);
            }
        }
        assert forall|j: nat| j <= k implies done_before(g, j).subset_of(#[trigger] done_before(g, k)) by {
            if j < k {
                assert(done_before(g, j).subset_of(done_before(g, km)));
            }
        }
    }
}

/// Each identifier lies in at most one layer.
pub proof fn lemma_layers_disjoint(g: StepGraph, a: nat, b: nat, x: Seq<char>)
    requires
        layer_ids(g, a).contains(x),
        layer_ids(g, b).contains(x),
    ensures
        a == b,
{
    lemma_fresh_ids(g, done_before(g, a));
    lemma_fresh_ids(g, done_before(g, b));
    if a < b {
        lemma_done_before(g, b);
        assert(done_before(g, a + 1).contains(x));
        assert(done_before(g, (a + 1) as nat).subset_of(done_before(g, b)));
    } else if b < a {
        lemma_done_before(g, a);
        assert(done_before(g, b + 1).contains(x));
        assert(done_before(g, (b + 1) as nat).subset_of(done_before(g, a)));
    }
}

proof fn lemma_count_from(g: StepGraph, j: nat, l: nat)
    requires
        j <= l <= g.len(),
        forall|k: nat| j <= k < l ==> #[trigger] layer_ids(g, k).len() > 0,
        l == g.len() || layer_ids(g, l).len() == 0,
    ensures
        layer_count_from(g, j) == l,
    decreases l - j,
{
    if j < l {
        assert(layer_ids(g, j).len() > 0);
        lemma_count_from(g, (j + 1) as nat, l);
    }
}

proof fn lemma_sorted_layer(g: StepGraph, k: nat, t: Seq<Seq<char>>)
    requires
        strictly_sorted(t),
        t.to_set() == layer_ids(g, k).to_set(),
    ensures
        sorted_layer(g, k) == t,
{
    let c = sorted_layer(g, k);
    assert(strictly_sorted(c) && c.to_set() == layer_ids(g, k).to_set());
    crate::text::lemma_sorted_unique(c, t);
}

// ---------------------------------------------------------------------------
// Executable helpers
// ---------------------------------------------------------------------------

/// The first position (scanning from 0) whose identifier already occurred.
fn find_duplicate(steps: &Vec<WorkflowStep>) -> (r: Option<usize>)
    ensures
        match r {
            Some(i) => i as int == first_dup_from(node_ids(graph_of(steps@)), 0) && i < steps@.len(),
            None => first_dup_from(node_ids(graph_of(steps@)), 0) == -1,
        },
{
    let ghost ids = node_ids(graph_of(steps@));
    let n = steps.len();
    let mut i: usize = 0;
    while i < n
        invariant
            n == steps@.len(),
            ids == node_ids(graph_of(steps@)),
            i <= n,
            first_dup_from(ids, 0) == first_dup_from(ids, i as int),
        decreases n - i,
    {
        let mut j: usize = 0;
        let mut found = false;
        while j < i
            invariant
                i < n == steps@.len(),
                ids == node_ids(graph_of(steps@)),
                j <= i,
                found == exists|q: int| 0 <= q < j && ids[q] == ids[i as int],
            decreases i - j,
        {
            if steps[j].id == steps[i].id {
                proof {
                    assert(ids[j as int] == ids[i as int]);
                }
                found = true;
            }
            j = j + 1;
        }
        proof {
            if found {
                let q = choose|q: int| 0 <= q < i && ids[q] == ids[i as int];
                assert(ids.take(i as int)[q] == ids[i as int]);
            }
            if ids.take(i as int).contains(ids[i as int]) {
                let q = choose|q: int| 0 <= q < i && ids.take(i as int)[q] == ids[i as int];
                assert(ids[q] == ids[i as int]);
            }
        }
        if found {
            return Some(i);
        }
        i = i + 1;
    }
    None
}

/// The first position whose identifier equals `x`.
fn index_of_id(steps: &Vec<WorkflowStep>, x: &String) -> (r: Option<usize>)
    ensures
        match r {
            Some(j) => j < steps@.len() && steps@[j as int].id@ == x@,
            None => !node_ids(graph_of(steps@)).contains(x@),
        },
{
    let mut j: usize = 0;
    while j < steps.len()
        invariant
            j <= steps@.len(),
            forall|q: int| 0 <= q < j ==> steps@[q].id@ != x@,
        decreases steps.len() - j,
    {
        if steps[j].id == *x {
            return Some(j);
        }
        j = j + 1;
    }
    proof {
        if node_ids(graph_of(steps@)).contains(x@) {
            let q = choose|q: int| 0 <= q < node_ids(graph_of(steps@)).len() && node_ids(graph_of(steps@))[q] == x@;
            assert(steps@[q].id@ == x@);
        }
    }
    None
}

/// Dependency positions of every step, or the first rejected dependency.
fn resolve_deps(steps: &Vec<WorkflowStep>) -> (r: Result<Vec<Vec<usize>>, (usize, usize)>)
    ensures
        match r {
            Ok(d) => {
                &&& first_bad_step_from(graph_of(steps@), 0) == -1
                &&& d@.len() == steps@.len()
                &&& forall|i: int| 0 <= i < steps@.len() ==> (#[trigger] d@[i])@.len() == graph_of(steps@)[i].1.len()
                &&& forall|i: int, k: int| 0 <= i < steps@.len() && 0 <= k < graph_of(steps@)[i].1.len() ==>
                    (#[trigger] d@[i]@[k]) < steps@.len() && steps@[d@[i]@[k] as int].id@ == graph_of(steps@)[i].1[k]
                        && d@[i]@[k] != i
            },
            Err((i, k)) => {
                &&& i as int == first_bad_step_from(graph_of(steps@), 0)
                &&& k as int == first_bad_dep_from(graph_of(steps@), i as int, 0)
                &&& i < steps@.len()
                &&& k < graph_of(steps@)[i as int].1.len()
            },
        },
{
    let n = steps.len();
    let mut d: Vec<Vec<usize>> = Vec::new();
    let mut i: usize = 0;
    while i < n
        invariant
            n == steps@.len(),
            i <= n,
            first_bad_step_from(graph_of(steps@), 0) == first_bad_step_from(graph_of(steps@), i as int),
            d@.len() == i,
            forall|i2: int| 0 <= i2 < i ==> (#[trigger] d@[i2])@.len() == graph_of(steps@)[i2].1.len(),
            forall|i2: int, k: int| 0 <= i2 < i && 0 <= k < graph_of(steps@)[i2].1.len() ==>
                (#[trigger] d@[i2]@[k]) < n && steps@[d@[i2]@[k] as int].id@ == graph_of(steps@)[i2].1[k]
                    && d@[i2]@[k] != i2,
        decreases n - i,
    {
        let deps = &steps[i].depends_on;
        let m = deps.len();
        let mut row: Vec<usize> = Vec::new();
        let mut k: usize = 0;
        while k < m
            invariant
                n == steps@.len(),
                i < n,
                deps@ == steps@[i as int].depends_on@,
                m == deps@.len(),
                k <= m,
                first_bad_dep_from(graph_of(steps@), i as int, 0) == first_bad_dep_from(graph_of(steps@), i as int, k as int),
                first_bad_step_from(graph_of(steps@), 0) == first_bad_step_from(graph_of(steps@), i as int),
                row@.len() == k,
                forall|k2: int| 0 <= k2 < k ==> (#[trigger] row@[k2]) < n && steps@[row@[k2] as int].id@ == graph_of(steps@)[i as int].1[k2]
                    && row@[k2] != i,
            decreases m - k,
        {
            proof {
                assert(graph_of(steps@)[i as int].1[k as int] == deps@[k as int]@);
            }
            if deps[k] == steps[i].id {
                proof {
                    assert(bad_dep(graph_of(steps@), i as int, graph_of(steps@)[i as int].1[k as int]));
                    assert(first_bad_dep_from(graph_of(steps@), i as int, k as int) == k);
                    assert(first_bad_step_from(graph_of(steps@), i as int) == i);
                }
                return Err((i, k));
            }
            match index_of_id(steps, &deps[k]) {
                Some(j) => {
                    proof {
                        assert(node_ids(graph_of(steps@))[j as int] == deps@[k as int]@);
                        assert(!bad_dep(graph_of(steps@), i as int, graph_of(steps@)[i as int].1[k as int]));
                        assert(first_bad_dep_from(graph_of(steps@), i as int, k as int) == first_bad_dep_from(graph_of(steps@), i as int, k + 1));
                    }
                    row.push(j);
                },
                None => {
                    proof {
                        assert(bad_dep(graph_of(steps@), i as int, graph_of(steps@)[i as int].1[k as int]));
                        assert(first_bad_dep_from(graph_of(steps@), i as int, k as int) == k);
                        assert(first_bad_step_from(graph_of(steps@), i as int) == i);
                    }
                    return Err((i, k));
                },
            }
            k = k + 1;
        }
        proof {
            assert(first_bad_dep_from(graph_of(steps@), i as int, k as int) == -1);
            assert(first_bad_step_from(graph_of(steps@), i as int) == first_bad_step_from(graph_of(steps@), i + 1));
        }
        d.push(row);
        i = i + 1;
    }
    Ok(d)
}

fn clone_usizes(v: &Vec<usize>) -> (r: Vec<usize>)
    ensures
        r@ == v@,
{
    let mut r: Vec<usize> = Vec::new();
    let mut i: usize = 0;
    while i < v.len()
        invariant
            i <= v@.len(),
            r@ == v@.subrange(0, i as int),
        decreases v.len() - i,
    {
        r.push(v[i]);
        proof {
            assert(v@.subrange(0, i + 1) =~= v@.subrange(0, i as int).push(v@[i as int]));
        }
        i = i + 1;
    }
    proof {
        assert(v@.subrange(0, v@.len() as int) =~= v@);
    }
    r
}

/// For each position, the positions of the steps that depend on it, in
/// step and dependency order.
fn build_dependents(n: usize, d: &Vec<Vec<usize>>) -> (r: Vec<Vec<usize>>)
    requires
        d@.len() == n,
        forall|c: int, k: int| 0 <= c < n && 0 <= k < d@[c]@.len() ==> (#[trigger] d@[c]@[k]) < n,
    ensures
        r@.len() == n,
        forall|v: int, j: int| 0 <= v < n && 0 <= j < r@[v]@.len() ==> (#[trigger] r@[v]@[j]) < n,
        forall|v: int, c: int| #![trigger r@[v]@.contains(c as usize)] #![trigger d@[c]@.contains(v as usize)]
            0 <= v < n && 0 <= c < n ==> (r@[v]@.contains(c as usize) <==> d@[c]@.contains(v as usize)),
{
    let mut r: Vec<Vec<usize>> = Vec::new();
    let mut v: usize = 0;
    while v < n
        invariant
            v <= n,
            r@.len() == v,
            forall|q: int| 0 <= q < v ==> (#[trigger] r@[q]@).len() == 0,
        decreases n - v,
    {
        r.push(Vec::new());
        v = v + 1;
    }
    let mut c: usize = 0;
    while c < n
        invariant
            d@.len() == n,
            forall|c2: int, k: int| 0 <= c2 < n && 0 <= k < d@[c2]@.len() ==> (#[trigger] d@[c2]@[k]) < n,
            c <= n,
            r@.len() == n,
            forall|v2: int, j: int| 0 <= v2 < n && 0 <= j < r@[v2]@.len() ==> (#[trigger] r@[v2]@[j]) < c,
            forall|v2: int, c2: int| #![trigger r@[v2]@.contains(c2 as usize)] 0 <= v2 < n && 0 <= c2 < n ==>
                (r@[v2]@.contains(c2 as usize) <==> (c2 < c && d@[c2]@.contains(v2 as usize))),
        decreases n - c,
    {
        let m = d[c].len();
        let mut k: usize = 0;
        while k < m
            invariant
                d@.len() == n,
                forall|c2: int, k2: int| 0 <= c2 < n && 0 <= k2 < d@[c2]@.len() ==> (#[trigger] d@[c2]@[k2]) < n,
                c < n,
                m == d@[c as int]@.len(),
                k <= m,
                r@.len() == n,
                forall|v2: int, j: int| 0 <= v2 < n && 0 <= j < r@[v2]@.len() ==> (#[trigger] r@[v2]@[j]) <= c,
                forall|v2: int, c2: int| #![trigger r@[v2]@.contains(c2 as usize)] 0 <= v2 < n && 0 <= c2 < n ==>
                    (r@[v2]@.contains(c2 as usize) <==> ((c2 < c && d@[c2]@.contains(v2 as usize))
                        || (c2 == c && d@[c as int]@.subrange(0, k as int).contains(v2 as usize)))),
            decreases m - k,
        {
            let v = d[c][k];
            let mut row = clone_usizes(&r[v]);
            row.push(c);
            let ghost old_r = r@;
            r.set(v, row);
            proof {
                let sub = d@[c as int]@.subrange(0, k as int);
                let sub1 = d@[c as int]@.subrange(0, k + 1);
                assert(sub1 =~= sub.push(v));
                assert forall|v2: int, c2: int| #![trigger r@[v2]@.contains(c2 as usize)] 0 <= v2 < n && 0 <= c2 < n implies
                    (r@[v2]@.contains(c2 as usize) <==> ((c2 < c && d@[c2]@.contains(v2 as usize))
                        || (c2 == c && sub1.contains(v2 as usize)))) by {
                    if v2 == v {
                        assert(r@[v2]@ == old_r[v2]@.push(c));
                        if r@[v2]@.contains(c2 as usize) {
                            let j = choose|j: int| 0 <= j < r@[v2]@.len() && r@[v2]@[j] == c2 as usize;
                            if j < old_r[v2]@.len() {
                                assert(old_r[v2]@[j] == c2 as usize);
                                assert(old_r[v2]@.contains(c2 as usize));
                            } else {
                                assert(c2 == c);
                                assert(sub1[k as int] == v2 as usize);
                            }
                        }
                        if c2 == c && sub1.contains(v2 as usize) {
                            assert(r@[v2]@[old_r[v2]@.len() as int] == c2 as usize);
                        }
                        if c2 < c && d@[c2]@.contains(v2 as usize) {
                            assert(old_r[v2]@.contains(c2 as usize));
                            let j = choose|j: int| 0 <= j < old_r[v2]@.len() && old_r[v2]@[j] == c2 as usize;
                            assert(r@[v2]@[j] == c2 as usize);
                        }
                        if c2 == c && sub.contains(v2 as usize) {
                            let q = choose|q: int| 0 <= q < sub.len() && sub[q] == v2 as usize;
                            assert(sub1[q] == v2 as usize);
                        }
                    } else {
                        assert(r@[v2] == old_r[v2]);
                        if c2 == c && sub1.contains(v2 as usize) {
                            let q = choose|q: int| 0 <= q < sub1.len() && sub1[q] == v2 as usize;
                            if q < k {
                                assert(sub[q] == v2 as usize);
                            }
                        }
                        if c2 == c && sub.contains(v2 as usize) {
                            let q = choose|q: int| 0 <= q < sub.len() && sub[q] == v2 as usize;
                            assert(sub1[q] == v2 as usize);
                        }
                    }
                }
                assert forall|v2: int, j: int| 0 <= v2 < n && 0 <= j < r@[v2]@.len() implies (#[trigger] r@[v2]@[j]) <= c by {
                    if v2 == v {
                        assert(r@[v2]@ == old_r[v2]@.push(c));
                        if j < old_r[v2]@.len() {
                            assert(old_r[v2]@[j] == r@[v2]@[j]);
                        }
                    } else {
                        assert(r@[v2] == old_r[v2]);
                    }
                }
            }
            k = k + 1;
        }
        proof {
            assert(d@[c as int]@.subrange(0, m as int) =~= d@[c as int]@);
        }
        c = c + 1;
    }
    r
}


fn deps_ready(dj: &Vec<usize>, assigned: &Vec<bool>) -> (r: bool)
    requires
        forall|k: int| 0 <= k < dj@.len() ==> (#[trigger] dj@[k]) < assigned@.len(),
    ensures
        r == forall|k: int| 0 <= k < dj@.len() ==> assigned@[#[trigger] dj@[k] as int],
{
    let mut k: usize = 0;
    while k < dj.len()
        invariant
            k <= dj@.len(),
            forall|k2: int| 0 <= k2 < dj@.len() ==> (#[trigger] dj@[k2]) < assigned@.len(),
            forall|k2: int| 0 <= k2 < k ==> assigned@[#[trigger] dj@[k2] as int],
        decreases dj.len() - k,
    {
        if !assigned[dj[k]] {
            return false;
        }
        k = k + 1;
    }
    true
}

/// The layers, the layer of each step, the topological order, and which
/// steps were placed.
fn compute_layers(steps: &Vec<WorkflowStep>, d: &Vec<Vec<usize>>) -> (r: (Vec<Vec<String>>, Vec<usize>, Vec<String>, Vec<bool>))
    requires
        node_ids(graph_of(steps@)).no_duplicates(),
        d@.len() == steps@.len(),
        forall|i: int| 0 <= i < steps@.len() ==> (#[trigger] d@[i])@.len() == graph_of(steps@)[i].1.len(),
        forall|i: int, k: int| 0 <= i < steps@.len() && 0 <= k < graph_of(steps@)[i].1.len() ==>
            (#[trigger] d@[i]@[k]) < steps@.len() && steps@[d@[i]@[k] as int].id@ == graph_of(steps@)[i].1[k],
    ensures
        ({
            let g = graph_of(steps@);
            let n = g.len();
            let l = layer_count(g);
            let (layers, layer_of, topo, assigned) = r;
            &&& layers@.len() == l
            &&& forall|k: int| 0 <= k < l ==> views(#[trigger] layers@[k]@) == layer_ids(g, k as nat)
            &&& layer_of@.len() == n
            &&& assigned@.len() == n
            &&& forall|i: int| 0 <= i < n ==> (#[trigger] assigned@[i] <==> done_before(g, l).contains(g[i].0))
            &&& forall|i: int| 0 <= i < n && assigned@[i] ==> (#[trigger] layer_of@[i]) < l
                && layer_ids(g, layer_of@[i] as nat).contains(g[i].0)
            &&& views(topo@) == topo_ids(g, l)
            &&& forall|k: nat| k < l ==> #[trigger] sorted_layer(g, k).to_set() == layer_ids(g, k).to_set()
        }),
{
    let ghost g = graph_of(steps@);
    let n = steps.len();
    let mut assigned: Vec<bool> = Vec::new();
    let mut layer_of: Vec<usize> = Vec::new();
    let mut q: usize = 0;
    while q < n
        invariant
            q <= n,
            assigned@.len() == q,
            layer_of@.len() == q,
            forall|i: int| 0 <= i < q ==> !(#[trigger] assigned@[i]),
        decreases n - q,
    {
        assigned.push(false);
        layer_of.push(0);
        q = q + 1;
    }
    let mut layers: Vec<Vec<String>> = Vec::new();
    let mut topo: Vec<String> = Vec::new();
    let mut stop = false;
    proof {
        assert(done_before(g, 0) == Set::<Seq<char>>::empty());
        assert(topo_ids(g, 0) =~= views(topo@));
    }
    while !stop
        invariant
            g == graph_of(steps@),
            n == g.len(),
            node_ids(g).no_duplicates(),
            d@.len() == n,
            forall|i: int| 0 <= i < n ==> (#[trigger] d@[i])@.len() == g[i].1.len(),
            forall|i: int, k: int| 0 <= i < n && 0 <= k < g[i].1.len() ==>
                (#[trigger] d@[i]@[k]) < n && steps@[d@[i]@[k] as int].id@ == g[i].1[k],
            layers@.len() <= n,
            assigned@.len() == n,
            layer_of@.len() == n,
            forall|i: int| 0 <= i < n ==> (#[trigger] assigned@[i] <==> done_before(g, layers@.len() as nat).contains(g[i].0)),
            forall|i: int| 0 <= i < n && assigned@[i] ==> (#[trigger] layer_of@[i]) < layers@.len()
                && layer_ids(g, layer_of@[i] as nat).contains(g[i].0),
            forall|k: int| 0 <= k < layers@.len() ==> views(#[trigger] layers@[k]@) == layer_ids(g, k as nat),
            forall|k: nat| k < layers@.len() ==> #[trigger] layer_ids(g, k).len() > 0,
            views(topo@) == topo_ids(g, layers@.len() as nat),
            forall|k: nat| k < layers@.len() ==> #[trigger] sorted_layer(g, k).to_set() == layer_ids(g, k).to_set(),
            stop ==> (layers@.len() == n || layer_ids(g, layers@.len() as nat).len() == 0),
        decreases 2 * (n - layers@.len()) + (if stop { 0int } else { 1int }),
    {
        let lcur = layers.len();
        if lcur >= n {
            stop = true;
        } else {
            let ghost done = done_before(g, lcur as nat);
            let mut fresh: Vec<usize> = Vec::new();
            let mut layer: Vec<String> = Vec::new();
            let mut j: usize = 0;
            while j < n
                invariant
                    g == graph_of(steps@),
                    n == g.len(),
                    d@.len() == n,
                    forall|i: int| 0 <= i < n ==> (#[trigger] d@[i])@.len() == g[i].1.len(),
                    forall|i: int, k: int| 0 <= i < n && 0 <= k < g[i].1.len() ==>
                        (#[trigger] d@[i]@[k]) < n && steps@[d@[i]@[k] as int].id@ == g[i].1[k],
                    assigned@.len() == n,
                    forall|i: int| 0 <= i < n ==> (#[trigger] assigned@[i] <==> done.contains(g[i].0)),
                    j <= n,
                    fresh@.len() == layer@.len(),
                    forall|p: int| 0 <= p < fresh@.len() ==> (#[trigger] fresh@[p]) < j,
                    forall|p: int, p2: int| 0 <= p < p2 < fresh@.len() ==> (#[trigger] fresh@[p]) < (#[trigger] fresh@[p2]),
                    forall|p: int| 0 <= p < fresh@.len() ==> (#[trigger] layer@[p])@ == g[fresh@[p] as int].0,
                    views(layer@) == fresh_ids(g.take(j as int), done),
                decreases n - j,
            {
                let ready = deps_ready(&d[j], &assigned);
                proof {
                    assert(g.take(j + 1).drop_last() =~= g.take(j as int));
                    assert(g.take(j + 1).last() == g[j as int]);
                    assert(ready == deps_within(g[j as int], done)) by {
                        if ready {
                            assert forall|k: int| 0 <= k < g[j as int].1.len() implies done.contains(#[trigger] g[j as int].1[k]) by {
                                assert(assigned@[d@[j as int]@[k] as int]);
                                assert(g[d@[j as int]@[k] as int].0 == steps@[d@[j as int]@[k] as int].id@);
                            }
                        }
                        if deps_within(g[j as int], done) {
                            assert forall|k: int| 0 <= k < d@[j as int]@.len() implies assigned@[#[trigger] d@[j as int]@[k] as int] by {
                                assert(done.contains(g[j as int].1[k]));
                                assert(g[d@[j as int]@[k] as int].0 == steps@[d@[j as int]@[k] as int].id@);
                            }
                        }
                    }
                    assert(g[j as int].0 == steps@[j as int].id@);
                }
                if !assigned[j] && ready {
                    let ghost old_layer = layer@;
                    fresh.push(j);
                    layer.push(steps[j].id.clone());
                    proof {
                        assert(views(layer@) =~= views(old_layer).push(g[j as int].0));
                    }
                }
                j = j + 1;
            }
            proof {
                assert(g.take(n as int) =~= g);
            }
            if fresh.len() == 0 {
                stop = true;
            } else {
                let ghost old_assigned = assigned@;
                let ghost old_layer_of = layer_of@;
                proof {
                    lemma_fresh_ids(g, done);
                    // fresh positions are distinct steps, so the layer has distinct identifiers
                    assert(views(layer@).no_duplicates()) by {
                        assert forall|a: int, b: int| 0 <= a < layer@.len() && 0 <= b < layer@.len() && a != b implies views(layer@)[a] != views(layer@)[b] by {
                            assert(fresh@[a] != fresh@[b]) by {
                                if a < b { assert(fresh@[a] < fresh@[b]); } else { assert(fresh@[b] < fresh@[a]); }
                            }
                            assert(node_ids(g)[fresh@[a] as int] == g[fresh@[a] as int].0);
                            assert(node_ids(g)[fresh@[b] as int] == g[fresh@[b] as int].0);
                        }
                    }
                }
                let mut p: usize = 0;
                while p < fresh.len()
                    invariant
                        n == g.len(),
                        assigned@.len() == n,
                        layer_of@.len() == n,
                        forall|p2: int| 0 <= p2 < fresh@.len() ==> (#[trigger] fresh@[p2]) < n,
                        p <= fresh@.len(),
                        old_assigned.len() == n,
                        old_layer_of.len() == n,
                        forall|i: int| 0 <= i < n ==> (#[trigger] assigned@[i] <==> (old_assigned[i] || fresh@.subrange(0, p as int).contains(i as usize))),
                        forall|i: int| 0 <= i < n ==> (#[trigger] layer_of@[i] == if fresh@.subrange(0, p as int).contains(i as usize) { lcur } else { old_layer_of[i] }),
                    decreases fresh.len() - p,
                {
                    let f = fresh[p];
                    assigned.set(f, true);
                    layer_of.set(f, lcur);
                    proof {
                        let sub = fresh@.subrange(0, p as int);
                        let sub1 = fresh@.subrange(0, p + 1);
                        assert(sub1 =~= sub.push(f));
                        assert forall|i: int| 0 <= i < n implies (#[trigger] sub1.contains(i as usize) <==> (sub.contains(i as usize) || i == f as int)) by {
                            if sub1.contains(i as usize) {
                                let q = choose|q: int| 0 <= q < sub1.len() && sub1[q] == i as usize;
                                if q < sub.len() { assert(sub[q] == i as usize); }
                            }
                            if sub.contains(i as usize) {
                                let q = choose|q: int| 0 <= q < sub.len() && sub[q] == i as usize;
                                assert(sub1[q] == i as usize);
                            }
                            if i == f as int {
                                assert(sub1[p as int] == f);
                            }
                        }
                    }
                    p = p + 1;
                }
                proof {
                    assert(fresh@.subrange(0, fresh@.len() as int) =~= fresh@);
                    let lnew = (lcur + 1) as nat;
                    assert(done_before(g, lnew) == done + layer_ids(g, lcur as nat).to_set());
                    assert forall|i: int| 0 <= i < n implies (fresh@.contains(i as usize) <==> layer_ids(g, lcur as nat).to_set().contains(g[i].0)) by {
                        if fresh@.contains(i as usize) {
                            let pp = choose|pp: int| 0 <= pp < fresh@.len() && fresh@[pp] == i as usize;
                            assert(views(layer@)[pp] == g[i].0);
                        }
                        if layer_ids(g, lcur as nat).to_set().contains(g[i].0) {
                            let pp = choose|pp: int| 0 <= pp < views(layer@).len() && views(layer@)[pp] == g[i].0;
                            let f = fresh@[pp] as int;
                            assert(g[f].0 == g[i].0);
                            assert(node_ids(g)[f] == g[f].0);
                            assert(node_ids(g)[i] == g[i].0);
                            assert(f == i);
                        }
                    }
                    assert forall|i: int| 0 <= i < n implies (#[trigger] assigned@[i] <==> done_before(g, lnew).contains(g[i].0)) by {
                        assert(fresh@.contains(i as usize) <==> layer_ids(g, lcur as nat).to_set().contains(g[i].0));
                    }
                    assert forall|i: int| 0 <= i < n && assigned@[i] implies (#[trigger] layer_of@[i]) < lcur + 1
                        && layer_ids(g, layer_of@[i] as nat).contains(g[i].0) by {
                        assert(fresh@.contains(i as usize) <==> layer_ids(g, lcur as nat).to_set().contains(g[i].0));
                        if fresh@.contains(i as usize) {
                            assert(layer_of@[i] == lcur);
                        }
                    }
                    assert(layer_ids(g, lcur as nat).len() > 0);
                }
                let layer_copy = clone_strings(&layer);
                let mut sorted = sort_distinct_strings(layer_copy);
                proof {
                    lemma_sorted_layer(g, lcur as nat, views(sorted@));
                    assert(sorted_layer(g, lcur as nat).to_set() == layer_ids(g, lcur as nat).to_set());
                }
                let ghost old_topo = topo@;
                topo.append(&mut sorted);
                layers.push(layer);
                proof {
                    assert(views(topo@) =~= views(old_topo) + sorted_layer(g, lcur as nat));
                    assert(layers@[lcur as int] == layer);
                }
            }
        }
    }
    proof {
        lemma_count_from(g, 0, layers@.len() as nat);
    }
    (layers, layer_of, topo, assigned)
}


fn contains_usize(v: &Vec<usize>, x: usize) -> (r: bool)
    ensures
        r == v@.contains(x),
{
    let mut i: usize = 0;
    while i < v.len()
        invariant
            i <= v@.len(),
            forall|j: int| 0 <= j < i ==> v@[j] != x,
        decreases v.len() - i,
    {
        if v[i] == x {
            return true;
        }
        i = i + 1;
    }
    false
}

/// The layering goes on while a layer is non-empty and steps remain.
proof fn lemma_count_props(g: StepGraph, k: nat)
    ensures
        k <= layer_count_from(g, k),
        forall|j: nat| k <= j < layer_count_from(g, k) ==> #[trigger] layer_ids(g, j).len() > 0,
        layer_count_from(g, k) >= g.len() || layer_ids(g, layer_count_from(g, k)).len() == 0,
        k <= g.len() ==> layer_count_from(g, k) <= g.len(),
    decreases g.len() - k,
{
    if !(k >= g.len() || layer_ids(g, k).len() == 0) {
        lemma_count_props(g, k + 1);
    }
}

/// After `k` non-empty layers at least `k` steps are placed.
proof fn lemma_done_len(g: StepGraph, k: nat)
    requires
        forall|j: nat| j < k ==> #[trigger] layer_ids(g, j).len() > 0,
    ensures
        done_before(g, k).finite(),
        done_before(g, k).len() >= k,
    decreases k,
{
    broadcast use vstd::seq_lib::seq_to_set_is_finite;
    lemma_done_before(g, k);
    assert(done_before(g, k).subset_of(node_ids(g).to_set()));
    vstd::set_lib::lemma_set_subset_finite(node_ids(g).to_set(), done_before(g, k));
    if k > 0 {
        let km = (k - 1) as nat;
        lemma_done_len(g, km);
        let d = done_before(g, km);
        let f = fresh_ids(g, d);
        assert(layer_ids(g, km).len() > 0);
        lemma_fresh_ids(g, d);
        let x = f[0];
        assert(f.contains(x));
        assert(!d.contains(x));
        assert(d.insert(x).subset_of(done_before(g, k)));
        lemma_len_subset(d.insert(x), done_before(g, k));
    }
}

/// A step left out of the layers has a dependency left out too.
proof fn lemma_stuck_dep(g: StepGraph, v: int)
    requires
        0 <= v < g.len(),
        !done_before(g, layer_count(g)).contains(g[v].0),
    ensures
        exists|k: int| 0 <= k < g[v].1.len() && !done_before(g, layer_count(g)).contains(#[trigger] g[v].1[k]),
{
    broadcast use vstd::seq_lib::seq_to_set_is_finite;
    let l = layer_count(g);
    lemma_count_props(g, 0);
    let dn = done_before(g, l);
    if layer_ids(g, l).len() == 0 {
        lemma_fresh_ids(g, dn);
        if deps_within(g[v], dn) {
            assert(fresh_ids(g, dn).contains(g[v].0));
            assert(fresh_ids(g, dn).len() > 0);
        }
    } else {
        lemma_done_len(g, l);
        lemma_done_before(g, l);
        let b = node_ids(g).to_set();
        node_ids(g).lemma_cardinality_of_set();
        let x = g[v].0;
        assert(node_ids(g)[v] == x);
        assert(b.contains(x));
        assert(dn.subset_of(b.remove(x)));
        lemma_len_subset(dn, b.remove(x));
    }
}

/// Finds a cycle among the steps left out of the layers: from the first
/// such step it walks back along dependencies, each time to the first
/// dependency (in the step's dependency order) also left out, until it
/// reaches a step already on the walk; the steps from there on, read in
/// dependency direction and closed, form the path.
fn find_cycle_path(steps: &Vec<WorkflowStep>, assigned: &Vec<bool>, d: &Vec<Vec<usize>>) -> (r: Vec<String>)
    requires
        ({
            let g = graph_of(steps@);
            let n = g.len();
            let done = done_before(g, layer_count(g));
            &&& node_ids(g).no_duplicates()
            &&& assigned@.len() == n
            &&& d@.len() == n
            &&& exists|i: int| 0 <= i < n && !assigned@[i]
            &&& forall|i: int| 0 <= i < n ==> (#[trigger] assigned@[i] <==> done.contains(g[i].0))
            &&& forall|i: int| 0 <= i < n ==> (#[trigger] d@[i])@.len() == g[i].1.len()
            &&& forall|i: int, k: int| 0 <= i < n && 0 <= k < g[i].1.len() ==>
                (#[trigger] d@[i]@[k]) < n && g[d@[i]@[k] as int].0 == g[i].1[k]
        }),
    ensures
        cycle_path_ok(graph_of(steps@), views(r@)),
{
    let ghost g = graph_of(steps@);
    let ghost done = done_before(g, layer_count(g));
    let n = steps.len();
    let mut start: usize = 0;
    while assigned[start]
        invariant
            n == g.len() == assigned@.len(),
            exists|i: int| 0 <= i < n && !assigned@[i],
            start < n,
            forall|j: int| 0 <= j < start ==> assigned@[j],
        decreases n - start,
    {
        start = start + 1;
        proof {
            if start >= n {
                let i = choose|i: int| 0 <= i < n && !assigned@[i];
                assert(assigned@[i]);
            }
        }
    }
    let mut on_walk: Vec<bool> = Vec::new();
    let mut q: usize = 0;
    while q < n
        invariant
            q <= n,
            on_walk@.len() == q,
            forall|i: int| 0 <= i < q ==> !(#[trigger] on_walk@[i]),
        decreases n - q,
    {
        on_walk.push(false);
        q = q + 1;
    }
    on_walk.set(start, true);
    let mut walk: Vec<usize> = Vec::new();
    walk.push(start);
    let ghost mut vis: Set<int> = set![start as int];
    proof {
        lemma_int_range(0, n as int);
        assert(vis.len() == 1);
        assert forall|i: int| 0 <= i < n implies (#[trigger] on_walk@[i] <==> walk@.contains(i as usize)) by {
            if i == start as int {
                assert(walk@[0] == start);
            }
        }
        assert forall|i: int| 0 <= i < n implies (#[trigger] vis.contains(i) <==> on_walk@[i]) by {}
    }
    let mut closing: Option<usize> = None;
    while closing.is_none()
        invariant
            g == graph_of(steps@),
            done == done_before(g, layer_count(g)),
            n == g.len() == assigned@.len() == d@.len() == on_walk@.len(),
            forall|i: int| 0 <= i < n ==> (#[trigger] assigned@[i] <==> done.contains(g[i].0)),
            forall|i: int| 0 <= i < n ==> (#[trigger] d@[i])@.len() == g[i].1.len(),
            forall|i: int, k: int| 0 <= i < n && 0 <= k < g[i].1.len() ==>
                (#[trigger] d@[i]@[k]) < n && g[d@[i]@[k] as int].0 == g[i].1[k],
            walk@.len() >= 1,
            walk@.len() <= n,
            forall|j: int| 0 <= j < walk@.len() ==> (#[trigger] walk@[j]) < n && !assigned@[walk@[j] as int],
            walk@.no_duplicates(),
            forall|i: int| 0 <= i < n ==> (#[trigger] on_walk@[i] <==> walk@.contains(i as usize)),
            forall|j: int| 0 <= j < walk@.len() - 1 ==> depends_on_index(g, #[trigger] walk@[j] as int, walk@[j + 1] as int),
            set_int_range(0, n as int).finite(),
            set_int_range(0, n as int).len() == n,
            vis.subset_of(set_int_range(0, n as int)),
            vis.finite(),
            vis.len() == walk@.len(),
            forall|i: int| 0 <= i < n ==> (#[trigger] vis.contains(i) <==> on_walk@[i]),
            closing matches Some(w) ==> walk@.contains(w) && depends_on_index(g, walk@[walk@.len() - 1] as int, w as int),
        decreases n - walk@.len() + (if closing is None { 1int } else { 0int }),
    {
        let cur = walk[walk.len() - 1];
        let deps = &d[cur];
        let mut found: Option<usize> = None;
        let mut k: usize = 0;
        while k < deps.len()
            invariant
                n == assigned@.len(),
                cur < n,
                deps@ == d@[cur as int]@,
                deps@.len() == g[cur as int].1.len(),
                forall|k2: int| 0 <= k2 < g[cur as int].1.len() ==>
                    (#[trigger] deps@[k2]) < n && g[deps@[k2] as int].0 == g[cur as int].1[k2],
                k <= deps@.len(),
                found matches Some(w) ==> w < n && !assigned@[w as int] && depends_on_index(g, cur as int, w as int),
                found is None ==> forall|k2: int| 0 <= k2 < k ==> assigned@[#[trigger] deps@[k2] as int],
            decreases deps.len() - k,
        {
            let w = deps[k];
            if found.is_none() && !assigned[w] {
                proof {
                    assert(g[cur as int].1[k as int] == g[w as int].0);
                    assert(g[cur as int].1.contains(g[w as int].0));
                }
                found = Some(w);
            }
            k = k + 1;
        }
        proof {
            if found is None {
                lemma_stuck_dep(g, cur as int);
                let k0 = choose|k0: int| 0 <= k0 < g[cur as int].1.len() && !done.contains(#[trigger] g[cur as int].1[k0]);
                assert(assigned@[deps@[k0] as int]);
                assert(g[deps@[k0] as int].0 == g[cur as int].1[k0]);
            }
        }
        let w = match found {
            Some(w) => w,
            None => {
                proof { assert(false); }
                return Vec::new();
            },
        };
        if on_walk[w] {
            closing = Some(w);
        } else {
            let ghost old_walk = walk@;
            proof {
                assert(!on_walk@[w as int]);
                assert(!vis.contains(w as int));
                assert(vis.insert(w as int).subset_of(set_int_range(0, n as int)));
                lemma_len_subset(vis.insert(w as int), set_int_range(0, n as int));
            }
            walk.push(w);
            on_walk.set(w, true);
            proof {
                vis = vis.insert(w as int);
                assert forall|j: int| 0 <= j < walk@.len() - 1 implies depends_on_index(g, #[trigger] walk@[j] as int, walk@[j + 1] as int) by {
                    if j < old_walk.len() - 1 {
                        assert(walk@[j] == old_walk[j] && walk@[j + 1] == old_walk[j + 1]);
                    }
                }
                assert forall|i: int| 0 <= i < n implies (#[trigger] on_walk@[i] <==> walk@.contains(i as usize)) by {
                    if i == w as int {
                        assert(walk@[walk@.len() - 1] == w);
                    } else if old_walk.contains(i as usize) {
                        let j = choose|j: int| 0 <= j < old_walk.len() && old_walk[j] == i as usize;
                        assert(walk@[j] == i as usize);
                    } else if walk@.contains(i as usize) {
                        let j = choose|j: int| 0 <= j < walk@.len() && walk@[j] == i as usize;
                        if j < old_walk.len() {
                            assert(old_walk[j] == i as usize);
                        }
                    }
                }
                assert forall|i: int| 0 <= i < n implies (#[trigger] vis.contains(i) <==> on_walk@[i]) by {}
                assert forall|a: int, b: int| 0 <= a < b < walk@.len() implies walk@[a] != walk@[b] by {
                    if b == walk@.len() - 1 {
                        assert(old_walk[a] == walk@[a]);
                        assert(old_walk.contains(walk@[a]));
                    } else {
                        assert(old_walk[a] == walk@[a] && old_walk[b] == walk@[b]);
                    }
                }
            }
        }
    }
    let w = match closing {
        Some(w) => w,
        None => {
            proof { assert(false); }
            return Vec::new();
        },
    };
    // The position of `w` on the walk.
    let mut p: usize = 0;
    while walk[p] != w
        invariant
            p < walk@.len(),
            walk@.len() <= n,
            walk@.contains(w),
            forall|j: int| 0 <= j < p ==> walk@[j] != w,
        decreases walk@.len() - p,
    {
        p = p + 1;
        proof {
            if p >= walk@.len() {
                let j = choose|j: int| 0 <= j < walk@.len() && walk@[j] == w;
                assert(walk@[j] != w);
            }
        }
    }
    let m = walk.len() - 1;
    let mut cyc: Vec<usize> = Vec::new();
    cyc.push(walk[p]);
    let mut t: usize = 0;
    while t <= m - p
        invariant
            p <= m,
            m + 1 == walk@.len(),
            walk@.len() <= n,
            t <= m - p + 1,
            cyc@.len() == t + 1,
            cyc@[0] == walk@[p as int],
            forall|i: int| 1 <= i <= t ==> #[trigger] cyc@[i] == walk@[m - i + 1],
        decreases m - p + 1 - t,
    {
        cyc.push(walk[m - t]);
        t = t + 1;
    }
    let ghost len = cyc@.len();
    proof {
        assert(len == m - p + 2);
        assert(cyc@[len - 1] == walk@[p as int]);
        // Every entry is a walk entry.
        assert forall|i: int| 0 <= i < len implies (#[trigger] cyc@[i]) < n && !assigned@[cyc@[i] as int] by {
            if i > 0 {
                assert(cyc@[i] == walk@[m - i + 1]);
            }
        }
        // Consecutive entries follow dependency links.
        assert forall|i: int| 0 <= i < len - 1 implies depends_on_index(g, #[trigger] cyc@[i + 1] as int, cyc@[i] as int) by {
            if i == 0 {
                assert(cyc@[1] == walk@[m as int]);
            } else {
                assert(cyc@[i] == walk@[m - i + 1]);
                assert(cyc@[i + 1] == walk@[m - i]);
                assert(depends_on_index(g, walk@[m - i] as int, walk@[m - i + 1] as int));
            }
        }
        // Before closing, no position repeats.
        assert forall|a: int, b: int| 0 <= a < b < len - 1 implies cyc@[a] != cyc@[b] by {
            assert(cyc@[b] == walk@[m - b + 1]);
            if a == 0 {
                assert(walk@[p as int] != walk@[m - b + 1]);
            } else {
                assert(cyc@[a] == walk@[m - a + 1]);
            }
        }
    }
    // Render the positions as identifiers.
    let mut r: Vec<String> = Vec::new();
    let mut j: usize = 0;
    while j < cyc.len()
        invariant
            g == graph_of(steps@),
            n == g.len(),
            forall|q2: int| 0 <= q2 < cyc@.len() ==> (#[trigger] cyc@[q2]) < n,
            j <= cyc@.len(),
            r@.len() == j,
            forall|q2: int| 0 <= q2 < j ==> (#[trigger] r@[q2])@ == g[cyc@[q2] as int].0,
        decreases cyc.len() - j,
    {
        r.push(steps[cyc[j]].id.clone());
        j = j + 1;
    }
    proof {
        let vr = views(r@);
        assert(vr.len() == len);
        assert(vr[0] == vr[len - 1]);
        assert forall|q2: int| 0 <= q2 < vr.len() implies node_ids(g).contains(#[trigger] vr[q2]) && !done.contains(vr[q2]) by {
            assert(vr[q2] == g[cyc@[q2] as int].0);
            assert(node_ids(g)[cyc@[q2] as int] == g[cyc@[q2] as int].0);
        }
        assert forall|q2: int| #![trigger vr[q2]] 0 <= q2 < vr.len() - 1 implies linked(g, vr[q2], vr[q2 + 1]) by {
            let c = cyc@[q2 + 1] as int;
            assert(depends_on_index(g, c, cyc@[q2] as int));
            assert(g[c].0 == vr[q2 + 1]);
        }
        assert forall|a: int, b: int| 0 <= a < b < vr.drop_last().len() implies vr.drop_last()[a] != vr.drop_last()[b] by {
            assert(cyc@[a] != cyc@[b]);
            assert(node_ids(g)[cyc@[a] as int] == vr[a]);
            assert(node_ids(g)[cyc@[b] as int] == vr[b]);
        }
    }
    r
}

impl ExecutionDag {
    /// Validates a workflow and precomputes its execution layers.
    ///
    /// Fails, in this order of checks, with `Empty` when there are no steps,
    /// `DuplicateId` for the first step whose identifier occurred earlier,
    /// `SelfLoop` or `MissingDependency` for the first dependency (in step
    /// and dependency order) naming its own step or no step, and `Cycle` when
    /// some steps can never be placed in a layer. Otherwise layer `k` holds,
    /// in workflow order, the steps whose dependencies all lie in earlier
    /// layers, and the topological order lists the layers in turn, each in
    /// increasing `String` order.
    pub fn from_workflow(workflow: &Workflow) -> (r: Result<ExecutionDag, DagError>)
        ensures
            ({
                let g = graph_of(workflow.steps@);
                let ids = node_ids(g);
                let bi = first_bad_step_from(g, 0);
                let bk = first_bad_dep_from(g, bi, 0);
                match r {
                    Err(DagError::Empty) => g.len() == 0,
                    Err(DagError::DuplicateId(x)) => g.len() > 0 && first_dup_from(ids, 0) >= 0
                        && x@ == ids[first_dup_from(ids, 0)],
                    Err(DagError::SelfLoop(x)) => g.len() > 0 && first_dup_from(ids, 0) == -1 && bi >= 0
                        && g[bi].1[bk] == g[bi].0 && x@ == g[bi].0,
                    Err(DagError::MissingDependency { step, missing }) => g.len() > 0 && first_dup_from(ids, 0) == -1
                        && bi >= 0 && g[bi].1[bk] != g[bi].0 && step@ == g[bi].0 && missing@ == g[bi].1[bk],
                    Err(DagError::Cycle(path)) => valid_graph(g) && !all_layered(g) && cycle_path_ok(g, views(path@)),
                    Ok(dag) => valid_graph(g) && all_layered(g) && same_steps(dag.step_list(), workflow.steps@),
                }
            }),
    {
        let n = workflow.steps.len();
        if n == 0 {
            return Err(DagError::Empty);
        }
        let steps = duplicate_steps(&workflow.steps);
        proof {
            lemma_same_steps_graph(steps@, workflow.steps@);
        }
        let ghost g = graph_of(steps@);
        match find_duplicate(&steps) {
            Some(i) => {
                proof {
                    assert(node_ids(g)[i as int] == steps@[i as int].id@);
                }
                return Err(DagError::DuplicateId(steps[i].id.clone()));
            },
            None => {},
        }
        proof {
            lemma_ids_distinct(node_ids(g));
        }
        let d = match resolve_deps(&steps) {
            Ok(d) => d,
            Err((i, k)) => {
                proof {
                    assert(g[i as int].1[k as int] == steps@[i as int].depends_on@[k as int]@);
                }
                if steps[i].depends_on[k] == steps[i].id {
                    return Err(DagError::SelfLoop(steps[i].id.clone()));
                } else {
                    return Err(DagError::MissingDependency {
                        step: steps[i].id.clone(),
                        missing: steps[i].depends_on[k].clone(),
                    });
                }
            },
        };
        let dependents = build_dependents(n, &d);
        proof {
            assert forall|v: int, c: int| 0 <= v < n && 0 <= c < n implies
                (dependents@[v]@.contains(c as usize) <==> #[trigger] depends_on_index(g, c, v)) by {
                if d@[c]@.contains(v as usize) {
                    let k = choose|k: int| 0 <= k < d@[c]@.len() && d@[c]@[k] == v as usize;
                    assert(g[c].1[k] == steps@[v].id@);
                }
                if depends_on_index(g, c, v) {
                    let k = choose|k: int| 0 <= k < g[c].1.len() && g[c].1[k] == g[v].0;
                    let w = d@[c]@[k] as int;
                    assert(steps@[w].id@ == g[c].1[k]);
                    assert(node_ids(g)[w] == g[w].0);
                    assert(node_ids(g)[v] == g[v].0);
                    assert(w == v);
                    assert(d@[c]@[k] == v as usize);
                }
            }
        }
        let (layers, layer_of, topo, assigned) = compute_layers(&steps, &d);
        let mut i: usize = 0;
        let mut complete = true;
        while i < n
            invariant
                n == assigned@.len(),
                i <= n,
                complete == forall|j: int| 0 <= j < i ==> assigned@[j],
            decreases n - i,
        {
            if !assigned[i] {
                complete = false;
            }
            i = i + 1;
        }
        if !complete {
            let path = find_cycle_path(&steps, &assigned, &d);
            proof {
                let j = choose|j: int| 0 <= j < n && !assigned@[j];
                assert(!done_before(g, layer_count(g)).contains(g[j].0));
            }
            return Err(DagError::Cycle(path));
        }
        proof {
            assert forall|j: int| 0 <= j < n implies done_before(g, layer_count(g)).contains(#[trigger] g[j].0) by {
                assert(assigned@[j]);
            }
        }
        Ok(ExecutionDag { steps, layers, layer_of, topo, dependents })
    }
}


// ---------------------------------------------------------------------------
// Queries
// ---------------------------------------------------------------------------

/// `b` can be reached from `a` by following one or more dependency edges
/// (from a step to a step that depends on it).
pub open spec fn reaches(g: StepGraph, a: Seq<char>, b: Seq<char>) -> bool {
    exists|p: Seq<Seq<char>>|
        #![trigger p.len()]
        p.len() >= 2 && p[0] == a && p[p.len() - 1] == b
            && forall|j: int| #![trigger p[j]] 0 <= j < p.len() - 1 ==> linked(g, p[j], p[j + 1])
}

/// A walk from `a` along dependency edges ending at `x`.
pub open spec fn walk_to(g: StepGraph, p: Seq<Seq<char>>, a: Seq<char>, x: Seq<char>) -> bool {
    p.len() >= 1 && p[0] == a && p[p.len() - 1] == x
        && forall|j: int| #![trigger p[j]] 0 <= j < p.len() - 1 ==> linked(g, p[j], p[j + 1])
}

/// The identifiers, in workflow order, of the steps not in `completed`
/// whose dependencies all are.
pub open spec fn ready_ids(g: StepGraph, completed: Seq<Seq<char>>) -> Seq<Seq<char>>
    decreases g.len(),
{
    if g.len() == 0 {
        seq![]
    } else {
        let rest = ready_ids(g.drop_last(), completed);
        let e = g.last();
        if !completed.contains(e.0) && (forall|k: int| 0 <= k < e.1.len() ==> completed.contains(#[trigger] e.1[k])) {
            rest.push(e.0)
        } else {
            rest
        }
    }
}

/// Walking `j` edges of `p` from a step in a closed set `s` stays in `s`,
/// and never reaches `b` after the start.
proof fn lemma_closed_walk(g: StepGraph, s: Set<int>, ai: int, b: Seq<char>, p: Seq<Seq<char>>, j: int)
    requires
        0 <= j < p.len(),
        s.contains(ai),
        g[ai].0 == p[0],
        forall|jj: int| #![trigger p[jj]] 0 <= jj < p.len() - 1 ==> linked(g, p[jj], p[jj + 1]),
        forall|x: int| #[trigger] s.contains(x) ==> 0 <= x < g.len(),
        forall|x: int, c: int| #![trigger s.contains(x), depends_on_index(g, c, x)]
            s.contains(x) && 0 <= c < g.len() && depends_on_index(g, c, x) ==> s.contains(c) && g[c].0 != b,
    ensures
        exists|x: int| #[trigger] s.contains(x) && g[x].0 == p[j] && (j > 0 ==> p[j] != b),
    decreases j,
{
    if j == 0 {
        assert(s.contains(ai) && g[ai].0 == p[0]);
    } else {
        lemma_closed_walk(g, s, ai, b, p, j - 1);
        let x = choose|x: int| #[trigger] s.contains(x) && g[x].0 == p[j - 1] && (j - 1 > 0 ==> p[j - 1] != b);
        assert(linked(g, p[j - 1], p[j]));
        let c = choose|c: int| 0 <= c < g.len() && g[c].0 == p[j] && #[trigger] g[c].1.contains(p[j - 1]);
        assert(depends_on_index(g, c, x));
        assert(s.contains(c) && g[c].0 == p[j] && p[j] != b);
    }
}

/// No walk leaves a set of steps closed under "depended on by", when no
/// step of it is `b`'s dependent named `b`.
proof fn lemma_closed_unreachable(g: StepGraph, s: Set<int>, ai: int, a: Seq<char>, b: Seq<char>)
    requires
        0 <= ai < g.len(),
        g[ai].0 == a,
        s.contains(ai),
        forall|x: int| #[trigger] s.contains(x) ==> 0 <= x < g.len(),
        forall|x: int, c: int| #![trigger s.contains(x), depends_on_index(g, c, x)]
            s.contains(x) && 0 <= c < g.len() && depends_on_index(g, c, x) ==> s.contains(c) && g[c].0 != b,
    ensures
        !reaches(g, a, b),
{
    if reaches(g, a, b) {
        let p = choose|p: Seq<Seq<char>>|
            #![trigger p.len()]
            p.len() >= 2 && p[0] == a && p[p.len() - 1] == b
                && forall|j: int| #![trigger p[j]] 0 <= j < p.len() - 1 ==> linked(g, p[j], p[j + 1]);
        lemma_closed_walk(g, s, ai, b, p, p.len() - 1);
    }
}

impl ExecutionDag {
    /// The graph of the DAG's steps.
    pub open spec fn graph(self) -> StepGraph {
        graph_of(self.step_list())
    }

    /// Number of parallel layers.
    pub fn layer_count(&self) -> (r: usize)
        ensures
            r == layer_count(self.graph()),
    {
        proof { use_type_invariant(self); }
        self.layers.len()
    }

    /// The steps of layer `i` (0-indexed), which can run in parallel.
    pub fn layer(&self, i: usize) -> (r: Option<&[String]>)
        ensures
            match r {
                Some(l) => i < layer_count(self.graph()) && views(l@) == layer_ids(self.graph(), i as nat),
                None => i >= layer_count(self.graph()),
            },
    {
        proof { use_type_invariant(self); }
        if i < self.layers.len() {
            Some(self.layers[i].as_slice())
        } else {
            None
        }
    }

    /// All parallel layers.
    pub fn layers(&self) -> (r: &[Vec<String>])
        ensures
            valid_graph(self.graph()),
            all_layered(self.graph()),
            r@.len() == layer_count(self.graph()),
            forall|k: int| 0 <= k < r@.len() ==> views(#[trigger] r@[k]@) == layer_ids(self.graph(), k as nat),
    {
        proof { use_type_invariant(self); }
        self.layers.as_slice()
    }

    /// The layer of the step with identifier `step_id`, if there is one.
    pub fn layer_index_of(&self, step_id: &str) -> (r: Option<usize>)
        ensures
            match r {
                Some(k) => k < layer_count(self.graph()) && layer_ids(self.graph(), k as nat).contains(step_id@),
                None => !node_ids(self.graph()).contains(step_id@),
            },
    {
        proof { use_type_invariant(self); }
        let key = String::from_str(step_id);
        match index_of_id(&self.steps, &key) {
            Some(j) => Some(self.layer_of[j]),
            None => None,
        }
    }

    /// All step identifiers in topological order: the layers in turn, each
    /// in increasing `String` order.
    #[verifier::spinoff_prover]
    pub fn topological_order(&self) -> (r: &[String])
        ensures
            views(r@) == topo_ids(self.graph(), layer_count(self.graph())),
            forall|i: int, k: int| #![trigger self.graph()[i].1[k]] 0 <= i < self.graph().len() && 0 <= k < self.graph()[i].1.len() ==>
                exists|pd: int, pc: int| #![trigger r@[pd], r@[pc]] 0 <= pd < pc < r@.len() && r@[pd]@ == self.graph()[i].1[k]
                    && r@[pc]@ == self.graph()[i].0,
    {
        proof {
            use_type_invariant(self);
            let g = self.graph();
            assert forall|i: int, k: int| #![trigger g[i].1[k]] 0 <= i < g.len() && 0 <= k < g[i].1.len() implies
                exists|pd: int, pc: int| #![trigger self.topo@[pd], self.topo@[pc]] 0 <= pd < pc < self.topo@.len() && self.topo@[pd]@ == g[i].1[k]
                    && self.topo@[pc]@ == g[i].0 by {
                lemma_topo_respects_dependencies(g, i, k);
                let (pd, pc) = choose|pd: int, pc: int| 0 <= pd < pc < topo_ids(g, layer_count(g)).len()
                    && topo_ids(g, layer_count(g))[pd] == g[i].1[k] && topo_ids(g, layer_count(g))[pc] == g[i].0;
                assert(views(self.topo@)[pd] == self.topo@[pd]@);
                assert(views(self.topo@)[pc] == self.topo@[pc]@);
            }
        }
        self.topo.as_slice()
    }

    /// The step with identifier `id`, if there is one.
    pub fn step(&self, id: &str) -> (r: Option<&WorkflowStep>)
        ensures
            match r {
                Some(s) => s.id@ == id@ && exists|i: int| 0 <= i < self.step_list().len() && self.step_list()[i] == *s,
                None => !node_ids(self.graph()).contains(id@),
            },
    {
        let key = String::from_str(id);
        match index_of_id(&self.steps, &key) {
            Some(j) => {
                proof {
                    assert(self.step_list()[j as int] == self.steps@[j as int]);
                }
                Some(&self.steps[j])
            },
            None => None,
        }
    }

    /// Total step count.
    pub fn len(&self) -> (r: usize)
        ensures
            r == self.step_list().len(),
    {
        self.steps.len()
    }

    /// Whether the DAG has no steps (never, once built).
    pub fn is_empty(&self) -> (r: bool)
        ensures
            r == (self.step_list().len() == 0),
            !r,
    {
        proof { use_type_invariant(self); }
        self.steps.len() == 0
    }

    /// Whether step `a` must complete before step `b`: `b` is reachable from
    /// `a` along dependency edges, and `a` is not `b`.
    pub fn must_precede(&self, a: &str, b: &str) -> (r: bool)
        ensures
            r == (a@ != b@ && reaches(self.graph(), a@, b@)),
    {
        proof { use_type_invariant(self); }
        let ghost g = self.graph();
        let a_s = String::from_str(a);
        let b_s = String::from_str(b);
        if a_s == b_s {
            return false;
        }
        let n = self.steps.len();
        let ai = match index_of_id(&self.steps, &a_s) {
            Some(j) => j,
            None => {
                proof {
                    if reaches(g, a@, b@) {
                        let p = choose|p: Seq<Seq<char>>|
                            #![trigger p.len()]
                            p.len() >= 2 && p[0] == a@ && p[p.len() - 1] == b@
                                && forall|j: int| #![trigger p[j]] 0 <= j < p.len() - 1 ==> linked(g, p[j], p[j + 1]);
                        assert(linked(g, p[0], p[1]));
                        let c = choose|c: int| 0 <= c < g.len() && g[c].0 == p[1] && #[trigger] g[c].1.contains(p[0]);
                        let k = choose|k: int| 0 <= k < g[c].1.len() && g[c].1[k] == a@;
                        assert(first_bad_step_from(g, 0) == -1);
                        lemma_no_bad_deps(g, c, k);
                    }
                }
                return false;
            },
        };
        let mut visited: Vec<bool> = Vec::new();
        let mut q: usize = 0;
        while q < n
            invariant
                q <= n,
                visited@.len() == q,
                forall|i: int| 0 <= i < q ==> !(#[trigger] visited@[i]),
            decreases n - q,
        {
            visited.push(false);
            q = q + 1;
        }
        let mut stack: Vec<usize> = Vec::new();
        stack.push(ai);
        let ghost mut vis: Set<int> = Set::empty();
        let ghost mut paths: Seq<Seq<Seq<char>>> = Seq::new(n as nat, |i: int| seq![a@]);
        proof {
            lemma_int_range(0, n as int);
            assert(g[ai as int].0 == a@);
            assert(walk_to(g, paths[ai as int], a@, g[ai as int].0));
            assert(stack@[0] == ai);
        }
        while stack.len() > 0
            invariant
                g == graph_of(self.steps@),
                n == g.len() == visited@.len() == self.dependents@.len(),
                forall|v: int, j: int| 0 <= v < n && 0 <= j < self.dependents@[v]@.len() ==> (#[trigger] self.dependents@[v]@[j]) < n,
                forall|v: int, c: int| 0 <= v < n && 0 <= c < n ==>
                    (self.dependents@[v]@.contains(c as usize) <==> #[trigger] depends_on_index(g, c, v)),
                ai < n,
                g[ai as int].0 == a@,
                a@ != b@,
                b_s@ == b@,
                set_int_range(0, n as int).finite(),
                set_int_range(0, n as int).len() == n,
                vis.subset_of(set_int_range(0, n as int)),
                forall|i: int| 0 <= i < n ==> (#[trigger] visited@[i] <==> vis.contains(i)),
                paths.len() == n,
                forall|j: int| 0 <= j < stack@.len() ==> (#[trigger] stack@[j]) < n,
                vis.contains(ai as int) || stack@.contains(ai),
                forall|x: int| 0 <= x < n && (vis.contains(x) || stack@.contains(x as usize)) ==> walk_to(g, #[trigger] paths[x], a@, g[x].0),
                forall|x: int, c: int| #![trigger vis.contains(x), depends_on_index(g, c, x)]
                    vis.contains(x) && 0 <= c < n && depends_on_index(g, c, x) ==>
                        (vis.contains(c) || stack@.contains(c as usize)) && g[c].0 != b@,
            decreases n - vis.len(), stack@.len(),
        {
            proof {
                lemma_len_subset(vis, set_int_range(0, n as int));
            }
            let ghost old_stack = stack@;
            let node = stack.pop().unwrap();
            proof {
                assert(stack@ == old_stack.drop_last());
                assert forall|x: int| 0 <= x < n && #[trigger] old_stack.contains(x as usize) && x != node as int implies stack@.contains(x as usize) by {
                    let j = choose|j: int| 0 <= j < old_stack.len() && old_stack[j] == x as usize;
                    assert(j < old_stack.len() - 1);
                    assert(stack@[j] == x as usize);
                }
                if ai != node && old_stack.contains(ai) {
                    let j = choose|j: int| 0 <= j < old_stack.len() && old_stack[j] == ai;
                    assert(j < old_stack.len() - 1);
                    assert(stack@[j] == ai);
                }
                if ai == node {
                    assert(visited@[node as int] ==> vis.contains(ai as int));
                }
            }
            if !visited[node] {
                visited.set(node, true);
                proof {
                    vis = vis.insert(node as int);
                    lemma_len_subset(vis, set_int_range(0, n as int));
                }
                let children = &self.dependents[node];
                let mut k: usize = 0;
                while k < children.len()
                    invariant
                        g == graph_of(self.steps@),
                        n == g.len() == visited@.len() == self.dependents@.len(),
                        children@ == self.dependents@[node as int]@,
                        node < n,
                        forall|v: int, j: int| 0 <= v < n && 0 <= j < self.dependents@[v]@.len() ==> (#[trigger] self.dependents@[v]@[j]) < n,
                        forall|v: int, c: int| 0 <= v < n && 0 <= c < n ==>
                            (self.dependents@[v]@.contains(c as usize) <==> #[trigger] depends_on_index(g, c, v)),
                        b_s@ == b@,
                        a@ != b@,
                        k <= children@.len(),
                        paths.len() == n,
                        forall|j: int| 0 <= j < stack@.len() ==> (#[trigger] stack@[j]) < n,
                        walk_to(g, paths[node as int], a@, g[node as int].0),
                        forall|j: int| 0 <= j < k ==> stack@.contains(#[trigger] children@[j]) && g[children@[j] as int].0 != b@,
                        forall|x: int| 0 <= x < n && (vis.contains(x) || stack@.contains(x as usize)) ==> walk_to(g, #[trigger] paths[x], a@, g[x].0),
                        forall|x: int| 0 <= x < n && #[trigger] old_stack.contains(x as usize) && x != node as int ==> stack@.contains(x as usize),
                        vis.contains(node as int),
                        vis.contains(ai as int) || stack@.contains(ai),
                    decreases children.len() - k,
                {
                    let child = children[k];
                    proof {
                        assert(children@.contains(child));
                        assert(depends_on_index(g, child as int, node as int));
                    }
                    if self.steps[child].id == b_s {
                        proof {
                            let p = paths[node as int].push(b@);
                            assert(linked(g, g[node as int].0, b@)) by {
                                assert(g[child as int].0 == b@);
                            }
                            assert(p.len() >= 2);
                            assert forall|j: int| #![trigger p[j]] 0 <= j < p.len() - 1 implies linked(g, p[j], p[j + 1]) by {
                                if j < p.len() - 2 {
                                    assert(p[j] == paths[node as int][j]);
                                    assert(p[j + 1] == paths[node as int][j + 1]);
                                }
                            }
                            assert(p[0] == a@);
                            assert(p[p.len() - 1] == b@);
                            assert(reaches(g, a@, b@));
                        }
                        return true;
                    }
                    let ghost old_stack2 = stack@;
                    stack.push(child);
                    proof {
                        let p = paths[node as int].push(g[child as int].0);
                        assert(linked(g, g[node as int].0, g[child as int].0));
                        assert forall|j: int| #![trigger p[j]] 0 <= j < p.len() - 1 implies linked(g, p[j], p[j + 1]) by {
                            if j < p.len() - 2 {
                                assert(p[j] == paths[node as int][j]);
                                assert(p[j + 1] == paths[node as int][j + 1]);
                            }
                        }
                        paths = paths.update(child as int, p);
                        assert forall|x: int| 0 <= x < n && (vis.contains(x) || stack@.contains(x as usize)) implies walk_to(g, #[trigger] paths[x], a@, g[x].0) by {
                            if x != child as int {
                                if stack@.contains(x as usize) && !vis.contains(x) {
                                    let j = choose|j: int| 0 <= j < stack@.len() && stack@[j] == x as usize;
                                    assert(j < old_stack2.len());
                                    assert(old_stack2[j] == x as usize);
                                }
                            }
                        }
                        assert forall|j: int| 0 <= j < k + 1 implies stack@.contains(#[trigger] children@[j]) && g[children@[j] as int].0 != b@ by {
                            if j < k {
                                let q2 = choose|q2: int| 0 <= q2 < old_stack2.len() && old_stack2[q2] == children@[j];
                                assert(stack@[q2] == children@[j]);
                            } else {
                                assert(stack@[old_stack2.len() as int] == child);
                            }
                        }
                        assert forall|x: int| 0 <= x < n && #[trigger] old_stack.contains(x as usize) && x != node as int implies stack@.contains(x as usize) by {
                            let q2 = choose|q2: int| 0 <= q2 < old_stack2.len() && old_stack2[q2] == x as usize;
                            assert(stack@[q2] == x as usize);
                        }
                        if old_stack2.contains(ai) {
                            let q2 = choose|q2: int| 0 <= q2 < old_stack2.len() && old_stack2[q2] == ai;
                            assert(stack@[q2] == ai);
                        }
                    }
                    k = k + 1;
                }
                proof {
                    assert forall|x: int, c: int| #![trigger vis.contains(x), depends_on_index(g, c, x)]
                        vis.contains(x) && 0 <= c < n && depends_on_index(g, c, x) implies
                            (vis.contains(c) || stack@.contains(c as usize)) && g[c].0 != b@ by {
                        if x == node as int {
                            assert(self.dependents@[x]@.contains(c as usize));
                            let j = choose|j: int| 0 <= j < children@.len() && children@[j] == c as usize;
                            assert(stack@.contains(children@[j]));
                        }
                    }
                }
            }
        }
        proof {
            lemma_closed_unreachable(g, vis, ai as int, a@, b@);
        }
        false
    }

    /// The steps that can start once `completed` is done: not completed
    /// themselves and with all dependencies completed, in increasing
    /// `String` order.
    pub fn ready_after(&self, completed: &[String]) -> (r: Vec<String>)
        ensures
            strictly_sorted(views(r@)),
            views(r@).to_set() == ready_ids(self.graph(), views(completed@)).to_set(),
    {
        proof { use_type_invariant(self); }
        let ghost g = self.graph();
        let n = self.steps.len();
        let mut ready: Vec<String> = Vec::new();
        let mut ghost_idx: Ghost<Seq<int>> = Ghost(Seq::empty());
        let mut i: usize = 0;
        proof {
            lemma_ids_distinct(node_ids(g));
        }
        while i < n
            invariant
                g == graph_of(self.steps@),
                n == g.len(),
                node_ids(g).no_duplicates(),
                i <= n,
                views(ready@) == ready_ids(g.take(i as int), views(completed@)),
                ghost_idx@.len() == ready@.len(),
                forall|p: int| 0 <= p < ghost_idx@.len() ==> 0 <= #[trigger] ghost_idx@[p] < i && views(ready@)[p] == g[ghost_idx@[p]].0,
                forall|p: int, p2: int| 0 <= p < p2 < ghost_idx@.len() ==> #[trigger] ghost_idx@[p] < #[trigger] ghost_idx@[p2],
            decreases n - i,
        {
            let step = &self.steps[i];
            let not_done = !crate::text::contains_string(completed, &step.id);
            let mut all_done = true;
            let mut k: usize = 0;
            while k < step.depends_on.len()
                invariant
                    k <= step.depends_on@.len(),
                    all_done == forall|k2: int| 0 <= k2 < k ==> views(completed@).contains(#[trigger] views(step.depends_on@)[k2]),
                decreases step.depends_on.len() - k,
            {
                if !crate::text::contains_string(completed, &step.depends_on[k]) {
                    all_done = false;
                }
                proof {
                    assert(views(step.depends_on@)[k as int] == step.depends_on@[k as int]@);
                }
                k = k + 1;
            }
            proof {
                assert(g.take(i + 1).drop_last() =~= g.take(i as int));
                assert(g.take(i + 1).last() == g[i as int]);
                assert(g[i as int].1 == views(step.depends_on@));
            }
            if not_done && all_done {
                let ghost old_ready = ready@;
                ready.push(step.id.clone());
                proof {
                    assert(views(ready@) =~= views(old_ready).push(g[i as int].0));
                    ghost_idx@ = ghost_idx@.push(i as int);
                }
            }
            i = i + 1;
        }
        proof {
            assert(g.take(n as int) =~= g);
            assert(views(ready@).no_duplicates()) by {
                assert forall|a: int, b: int| 0 <= a < ready@.len() && 0 <= b < ready@.len() && a != b implies views(ready@)[a] != views(ready@)[b] by {
                    let ia = ghost_idx@[a];
                    let ib = ghost_idx@[b];
                    assert(ia != ib) by {
                        if a < b { assert(ia < ib); } else { assert(ib < ia); }
                    }
                    assert(node_ids(g)[ia] == g[ia].0);
                    assert(node_ids(g)[ib] == g[ib].0);
                }
            }
        }
        sort_distinct_strings(ready)
    }
}

/// A step whose dependencies passed validation names an existing, other step.
proof fn lemma_no_bad_deps(g: StepGraph, c: int, k: int)
    requires
        first_bad_step_from(g, 0) == -1,
        0 <= c < g.len(),
        0 <= k < g[c].1.len(),
    ensures
        node_ids(g).contains(g[c].1[k]),
        g[c].1[k] != g[c].0,
{
    lemma_bad_step_none(g, 0);
    lemma_bad_dep_none(g, c, 0);
}

proof fn lemma_bad_step_none(g: StepGraph, i: int)
    requires
        0 <= i,
        first_bad_step_from(g, i) == -1,
    ensures
        forall|j: int| i <= j < g.len() ==> #[trigger] first_bad_dep_from(g, j, 0) < 0,
    decreases g.len() - i,
{
    if i < g.len() {
        lemma_bad_step_none(g, i + 1);
    }
}

proof fn lemma_bad_dep_none(g: StepGraph, c: int, k: int)
    requires
        0 <= c < g.len(),
        0 <= k,
        first_bad_dep_from(g, c, k) < 0,
    ensures
        forall|j: int| k <= j < g[c].1.len() ==> !bad_dep(g, c, #[trigger] g[c].1[j]),
    decreases g[c].1.len() - k,
{
    if k < g[c].1.len() {
        lemma_bad_dep_none(g, c, k + 1);
    }
}

// ---------------------------------------------------------------------------
// Laws
// ---------------------------------------------------------------------------

/// The layer holding identifier `x`.
pub open spec fn layer_index(g: StepGraph, x: Seq<char>) -> nat {
    choose|a: nat| layer_ids(g, a).contains(x)
}

/// Whatever lies in `done_before(g, a)` lies in some layer before `a`.
proof fn lemma_done_in_earlier_layer(g: StepGraph, a: nat, x: Seq<char>)
    requires
        done_before(g, a).contains(x),
    ensures
        exists|b: nat| b < a && #[trigger] layer_ids(g, b).contains(x),
    decreases a,
{
    if a > 0 {
        let am = (a - 1) as nat;
        if done_before(g, am).contains(x) {
            lemma_done_in_earlier_layer(g, am, x);
            let b = choose|b: nat| b < am && #[trigger] layer_ids(g, b).contains(x);
            assert(b < a && layer_ids(g, b).contains(x));
        } else {
            assert(fresh_ids(g, done_before(g, am)).to_set().contains(x));
            assert(layer_ids(g, am).contains(x));
        }
    }
}

/// Each dependency of a step lies in a layer strictly before the step's
/// layer, so a layer can start once the layers before it are done.
pub proof fn lemma_dependencies_in_earlier_layers(g: StepGraph, i: int, k: int, a: nat)
    requires
        valid_graph(g),
        0 <= i < g.len(),
        0 <= k < g[i].1.len(),
        layer_ids(g, a).contains(g[i].0),
    ensures
        exists|b: nat| b < a && #[trigger] layer_ids(g, b).contains(g[i].1[k]),
{
    lemma_ids_distinct(node_ids(g));
    let done = done_before(g, a);
    lemma_fresh_ids(g, done);
    let j = choose|j: int| 0 <= j < g.len() && #[trigger] g[j].0 == g[i].0 && !done.contains(g[i].0) && deps_within(g[j], done);
    assert(node_ids(g)[j] == node_ids(g)[i]);
    assert(j == i);
    assert(done.contains(g[i].1[k]));
    lemma_done_in_earlier_layer(g, a, g[i].1[k]);
}

/// The layers partition the steps of a DAG: each step lies in exactly one
/// layer, and that layer is one of the DAG's layers.
pub proof fn lemma_each_step_in_one_layer(g: StepGraph, i: int)
    requires
        valid_graph(g),
        all_layered(g),
        0 <= i < g.len(),
    ensures
        layer_index(g, g[i].0) < layer_count(g),
        layer_ids(g, layer_index(g, g[i].0)).contains(g[i].0),
        forall|a: nat| #[trigger] layer_ids(g, a).contains(g[i].0) ==> a == layer_index(g, g[i].0),
{
    assert(done_before(g, layer_count(g)).contains(g[i].0));
    lemma_done_in_earlier_layer(g, layer_count(g), g[i].0);
    let b = choose|b: nat| b < layer_count(g) && #[trigger] layer_ids(g, b).contains(g[i].0);
    let c = layer_index(g, g[i].0);
    assert(layer_ids(g, c).contains(g[i].0));
    lemma_layers_disjoint(g, b, c, g[i].0);
    assert forall|a: nat| #[trigger] layer_ids(g, a).contains(g[i].0) implies a == c by {
        lemma_layers_disjoint(g, a, c, g[i].0);
    }
}

/// Along a dependency edge the layer strictly increases.
proof fn lemma_linked_layers(g: StepGraph, x: Seq<char>, y: Seq<char>)
    requires
        valid_graph(g),
        all_layered(g),
        linked(g, x, y),
    ensures
        layer_index(g, x) < layer_index(g, y),
{
    let c = choose|c: int| 0 <= c < g.len() && g[c].0 == y && #[trigger] g[c].1.contains(x);
    let k = choose|k: int| 0 <= k < g[c].1.len() && g[c].1[k] == x;
    lemma_each_step_in_one_layer(g, c);
    lemma_dependencies_in_earlier_layers(g, c, k, layer_index(g, y));
    let b = choose|b: nat| b < layer_index(g, y) && #[trigger] layer_ids(g, b).contains(x);
    lemma_no_bad_deps(g, c, k);
    let w = choose|w: int| 0 <= w < node_ids(g).len() && node_ids(g)[w] == x;
    assert(g[w].0 == x);
    lemma_each_step_in_one_layer(g, w);
}

proof fn lemma_walk_layers(g: StepGraph, p: Seq<Seq<char>>, j: int)
    requires
        valid_graph(g),
        all_layered(g),
        1 <= j < p.len(),
        forall|jj: int| #![trigger p[jj]] 0 <= jj < p.len() - 1 ==> linked(g, p[jj], p[jj + 1]),
    ensures
        layer_index(g, p[0]) < layer_index(g, p[j]),
    decreases j,
{
    assert(linked(g, p[j - 1], p[j]));
    lemma_linked_layers(g, p[j - 1], p[j]);
    if j > 1 {
        lemma_walk_layers(g, p, j - 1);
    }
}

/// Reachability in a DAG follows the layers: if `b` can be reached from
/// `a`, then `a`'s layer comes strictly before `b`'s. So "must precede" is
/// a strict order: no step precedes itself, and no two steps precede each
/// other.
pub proof fn lemma_reaches_follows_layers(g: StepGraph, a: Seq<char>, b: Seq<char>)
    requires
        valid_graph(g),
        all_layered(g),
        reaches(g, a, b),
    ensures
        layer_index(g, a) < layer_index(g, b),
        a != b,
        !reaches(g, b, a),
{
    let p = choose|p: Seq<Seq<char>>|
        #![trigger p.len()]
        p.len() >= 2 && p[0] == a && p[p.len() - 1] == b
            && forall|j: int| #![trigger p[j]] 0 <= j < p.len() - 1 ==> linked(g, p[j], p[j + 1]);
    lemma_walk_layers(g, p, p.len() - 1);
    if reaches(g, b, a) {
        let q = choose|q: Seq<Seq<char>>|
            #![trigger q.len()]
            q.len() >= 2 && q[0] == b && q[q.len() - 1] == a
                && forall|j: int| #![trigger q[j]] 0 <= j < q.len() - 1 ==> linked(g, q[j], q[j + 1]);
        lemma_walk_layers(g, q, q.len() - 1);
    }
}

/// A step must follow each of its direct dependencies.
pub proof fn lemma_direct_dependency_reaches(g: StepGraph, c: int, k: int)
    requires
        0 <= c < g.len(),
        0 <= k < g[c].1.len(),
    ensures
        reaches(g, g[c].1[k], g[c].0),
{
    let p = seq![g[c].1[k], g[c].0];
    assert(g[c].1.contains(g[c].1[k]));
    assert(linked(g, p[0], p[1]));
    assert(p.len() >= 2 && p[0] == g[c].1[k] && p[p.len() - 1] == g[c].0);
}

/// Earlier layers form a prefix of the topological order.
proof fn lemma_topo_prefix(g: StepGraph, j: nat, l: nat)
    requires
        j <= l,
    ensures
        topo_ids(g, j).len() <= topo_ids(g, l).len(),
        forall|p: int| 0 <= p < topo_ids(g, j).len() ==> #[trigger] topo_ids(g, l)[p] == topo_ids(g, j)[p],
    decreases l,
{
    if j < l {
        lemma_topo_prefix(g, j, (l - 1) as nat);
    }
}

/// A member of layer `b` sits in the topological order among the entries of
/// layer `b`.
proof fn lemma_topo_position(g: StepGraph, l: nat, b: nat, x: Seq<char>)
    requires
        b < l,
        sorted_layer(g, b).to_set() == layer_ids(g, b).to_set(),
        layer_ids(g, b).contains(x),
    ensures
        exists|p: int| topo_ids(g, b).len() <= p < topo_ids(g, b + 1).len() && #[trigger] topo_ids(g, l)[p] == x,
        topo_ids(g, b + 1).len() <= topo_ids(g, l).len(),
{
    assert(layer_ids(g, b).to_set().contains(x));
    assert(sorted_layer(g, b).to_set().contains(x));
    let q = choose|q: int| 0 <= q < sorted_layer(g, b).len() && sorted_layer(g, b)[q] == x;
    let p = topo_ids(g, b).len() + q;
    assert(topo_ids(g, (b + 1) as nat) == topo_ids(g, b) + sorted_layer(g, b));
    assert(topo_ids(g, (b + 1) as nat)[p] == x);
    lemma_topo_prefix(g, (b + 1) as nat, l);
    assert(topo_ids(g, l)[p] == x);
}

/// In the topological order each dependency of a step comes before the step.
proof fn lemma_topo_respects_dependencies(g: StepGraph, i: int, k: int)
    requires
        valid_graph(g),
        all_layered(g),
        forall|k2: nat| k2 < layer_count(g) ==> #[trigger] sorted_layer(g, k2).to_set() == layer_ids(g, k2).to_set(),
        0 <= i < g.len(),
        0 <= k < g[i].1.len(),
    ensures
        exists|pd: int, pc: int| 0 <= pd < pc < topo_ids(g, layer_count(g)).len()
            && topo_ids(g, layer_count(g))[pd] == g[i].1[k] && topo_ids(g, layer_count(g))[pc] == g[i].0,
{
    let l = layer_count(g);
    lemma_each_step_in_one_layer(g, i);
    let a = layer_index(g, g[i].0);
    lemma_dependencies_in_earlier_layers(g, i, k, a);
    let b = choose|b: nat| b < a && #[trigger] layer_ids(g, b).contains(g[i].1[k]);
    assert(sorted_layer(g, b).to_set() == layer_ids(g, b).to_set());
    assert(sorted_layer(g, a).to_set() == layer_ids(g, a).to_set());
    lemma_topo_position(g, l, b, g[i].1[k]);
    lemma_topo_position(g, l, a, g[i].0);
    let pd = choose|p: int| topo_ids(g, b).len() <= p < topo_ids(g, b + 1).len() && #[trigger] topo_ids(g, l)[p] == g[i].1[k];
    let pc = choose|p: int| topo_ids(g, a).len() <= p < topo_ids(g, a + 1).len() && #[trigger] topo_ids(g, l)[p] == g[i].0;
    lemma_topo_prefix(g, (b + 1) as nat, a);
    assert(pd < pc);
}

} // verus!
