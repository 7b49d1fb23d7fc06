//! Workflow definitions: ordered steps that depend on one another.

use vstd::prelude::*;

use crate::domain::tasks::TaskId;
use crate::external::{json_null, new_uuid_string, now_utc};
use crate::text::{clone_strings, contains_string, push_str, views};

verus! {

/// Workflow identifier.
#[derive(Debug, Clone, PartialEq, Eq, Hash)]
pub struct WorkflowId(pub String);

impl WorkflowId {
    /// A fresh random identifier.
    pub fn new() -> (r: Self)
        ensures
            r.0@.len() == 36,
    {
        WorkflowId(new_uuid_string())
    }

    /// An identifier with the given text.
    pub fn from_string(id: String) -> (r: Self)
        ensures
            r.0@ == id@,
    {
        WorkflowId(id)
    }
}

/// Workflow state.
#[derive(Debug, Clone, Copy, PartialEq, Eq, Default, Structural)]
pub enum WorkflowState {
    #[default]
    Draft,
    Pending,
    Running,
    Paused,
    Completed,
    Failed,
    Cancelled,
}

/// A single step in a workflow.
#[derive(Debug, Clone)]
pub struct WorkflowStep {
    /// Step identifier.
    pub id: String,
    /// Task to execute (optional if inline action).
    pub task_id: Option<TaskId>,
    /// Step name.
    pub name: String,
    /// Identifiers of the steps that must complete first.
    pub depends_on: Vec<String>,
    /// Step configuration.
    pub config: serde_json::Value,
    /// Timeout for this step.
    pub timeout_seconds: Option<u64>,
    /// Retry configuration.
    pub retry_on_failure: bool,
}

/// The dependency identifiers of a step, as text.
pub open spec fn step_deps(s: WorkflowStep) -> Seq<Seq<char>> {
    views(s.depends_on@)
}

/// Two steps agree in every field, their dependency lists by contents.
pub open spec fn same_step(a: WorkflowStep, b: WorkflowStep) -> bool {
    &&& a.id == b.id
    &&& a.task_id == b.task_id
    &&& a.name == b.name
    &&& a.depends_on@ == b.depends_on@
    &&& a.config == b.config
    &&& a.timeout_seconds == b.timeout_seconds
    &&& a.retry_on_failure == b.retry_on_failure
}

/// Two step lists agree step by step.
pub open spec fn same_steps(a: Seq<WorkflowStep>, b: Seq<WorkflowStep>) -> bool {
    a.len() == b.len() && forall|i: int| 0 <= i < a.len() ==> same_step(#[trigger] a[i], b[i])
}

/// The identifiers of a list of steps, as text.
pub open spec fn step_ids(steps: Seq<WorkflowStep>) -> Seq<Seq<char>> {
    steps.map_values(|s: WorkflowStep| s.id@)
}

fn dup_task_id(t: &Option<TaskId>) -> (r: Option<TaskId>)
    ensures
        r == *t,
{
    match t {
        Some(id) => {
            let c = TaskId(id.0.clone());
            Some(c)
        },
        None => None,
    }
}

impl WorkflowStep {
    /// A step whose identifier and name are both `name`, with no dependencies.
    pub fn new(name: String) -> (r: Self)
        ensures
            r.id@ == name@,
            r.name@ == name@,
            r.task_id is None,
            r.depends_on@.len() == 0,
            r.timeout_seconds is None,
            !r.retry_on_failure,
    {
        let id = name.clone();
        WorkflowStep {
            id,
            task_id: None,
            name,
            depends_on: Vec::new(),
            config: json_null(),
            timeout_seconds: None,
            retry_on_failure: false,
        }
    }

    /// Sets the task to execute.
    pub fn with_task(self, task_id: TaskId) -> (r: Self)
        ensures
            r.task_id == Some(task_id),
            r.id == self.id,
            r.name == self.name,
            r.depends_on == self.depends_on,
    {
        let mut s = self;
        s.task_id = Some(task_id);
        s
    }

    /// Adds a dependency on the step with identifier `dep`.
    pub fn with_dependency(self, dep: String) -> (r: Self)
        ensures
            r.depends_on@ == self.depends_on@.push(dep),
            r.id == self.id,
            r.name == self.name,
            r.task_id == self.task_id,
    {
        let mut s = self;
        s.depends_on.push(dep);
        s
    }

    /// A copy of this step.
    pub fn duplicate(&self) -> (r: Self)
        ensures
            same_step(r, *self),
    {
        let r = WorkflowStep {
            id: self.id.clone(),
            task_id: dup_task_id(&self.task_id),
            name: self.name.clone(),
            depends_on: clone_strings(&self.depends_on),
            config: self.config.clone(),
            timeout_seconds: self.timeout_seconds,
            retry_on_failure: self.retry_on_failure,
        };
        r
    }
}

/// Copies a list of steps.
pub fn duplicate_steps(v: &Vec<WorkflowStep>) -> (r: Vec<WorkflowStep>)
    ensures
        same_steps(r@, v@),
{
    let mut r: Vec<WorkflowStep> = Vec::new();
    let mut i: usize = 0;
    while i < v.len()
        invariant
            i <= v@.len(),
            r@.len() == i,
            forall|j: int| 0 <= j < i ==> same_step(#[trigger] r@[j], v@[j]),
        decreases v.len() - i,
    {
        r.push(v[i].duplicate());
        i = i + 1;
    }
    r
}

/// What a workflow run does next, given the steps completed so far.
#[derive(Debug)]
pub enum WaveAction {
    /// As many steps have completed as the workflow has: the run is over.
    Finished,
    /// Steps remain but none is ready: the run cannot go on.
    Stalled,
    /// Run these ready steps together, then count them as completed.
    Run(Vec<WorkflowStep>),
}

/// Workflow definition: steps forming a dependency graph.
#[derive(Debug, Clone)]
pub struct Workflow {
    /// Unique identifier.
    pub id: WorkflowId,
    /// Workflow name.
    pub name: String,
    /// Description.
    pub description: Option<String>,
    /// Current state.
    pub state: WorkflowState,
    /// Workflow steps (nodes of the graph).
    pub steps: Vec<WorkflowStep>,
    /// Created timestamp (RFC 3339, UTC).
    pub created_at: String,
    /// Updated timestamp (RFC 3339, UTC).
    pub updated_at: String,
    /// Started timestamp (RFC 3339, UTC).
    pub started_at: Option<String>,
    /// Completed timestamp (RFC 3339, UTC).
    pub completed_at: Option<String>,
}

/// A directed graph on nodes `0..n` has a cycle: a closed walk of at least
/// one edge through nodes of the graph.
pub open spec fn has_cycle(n: int, edges: Seq<(int, int)>) -> bool {
    exists|p: Seq<int>|
        #![trigger p.len()]
        p.len() >= 2 && p[0] == p[p.len() - 1]
            && (forall|j: int| 0 <= j < p.len() ==> 0 <= #[trigger] p[j] < n)
            && (forall|j: int| 0 <= j < p.len() - 1 ==> edges.contains((#[trigger] p[j], p[j + 1])))
}

/// A directed graph of petgraph's; the library builds one without node or
/// edge data and asks whether it is acyclic.
#[verifier::external_type_specification]
#[verifier::external_body]
#[verifier::reject_recursive_types(N)]
#[verifier::reject_recursive_types(E)]
#[verifier::reject_recursive_types(Ty)]
#[verifier::reject_recursive_types(Ix)]
pub struct ExGraph<N, E, Ty, Ix>(petgraph::graph::Graph<N, E, Ty, Ix>);

/// petgraph's marker for directed graphs.
#[verifier::external_type_specification]
#[verifier::external_body]
pub struct ExDirected(petgraph::Directed);

/// The number of nodes of a graph (its nodes are `0..count`).
pub uninterp spec fn digraph_node_count(g: petgraph::graph::Graph<(), (), petgraph::Directed, u32>) -> nat;

/// The edges of a graph, as (source, target) node positions, in the order
/// they were added.
pub uninterp spec fn digraph_edges(g: petgraph::graph::Graph<(), (), petgraph::Directed, u32>) -> Seq<(int, int)>;

/// An empty directed graph.
///
/// Calls `petgraph::graph::Graph::new`, which starts with no nodes and no
/// edges.
#[verifier::external_body]
fn digraph_new() -> (g: petgraph::graph::Graph<(), (), petgraph::Directed, u32>)
    ensures
        digraph_node_count(g) == 0,
        digraph_edges(g) == Seq::<(int, int)>::empty(),
{
    petgraph::graph::Graph::new()
}

/// Adds a node and returns its position.
///
/// Calls `Graph::add_node`, which appends the node, so its index is the
/// former node count, and leaves the edges alone; it panics once the count
/// reaches `u32::MAX`, the end marker of the default index type, which
/// `requires` rules out.
#[verifier::external_body]
fn digraph_add_node(g: &mut petgraph::graph::Graph<(), (), petgraph::Directed, u32>) -> (r: usize)
    requires
        digraph_node_count(*old(g)) < u32::MAX,
    ensures
        r == digraph_node_count(*old(g)),
        digraph_node_count(*final(g)) == digraph_node_count(*old(g)) + 1,
        digraph_edges(*final(g)) == digraph_edges(*old(g)),
{
    g.add_node(()).index()
}

/// Adds an edge from node `a` to node `b`.
///
/// Calls `Graph::add_edge`, which appends the edge (parallel edges are kept)
/// and leaves the nodes alone; it panics when a node does not exist or the
/// edge count reaches `u32::MAX`, which `requires` rules out.
#[verifier::external_body]
fn digraph_add_edge(g: &mut petgraph::graph::Graph<(), (), petgraph::Directed, u32>, a: usize, b: usize)
    requires
        a < digraph_node_count(*old(g)),
        b < digraph_node_count(*old(g)),
        digraph_edges(*old(g)).len() < u32::MAX,
    ensures
        digraph_node_count(*final(g)) == digraph_node_count(*old(g)),
        digraph_edges(*final(g)) == digraph_edges(*old(g)).push((a as int, b as int)),
{
    g.add_edge(petgraph::graph::NodeIndex::new(a), petgraph::graph::NodeIndex::new(b), ());
}

/// Whether the graph has a cycle.
///
/// Calls `petgraph::algo::toposort`, documented to return `Err` exactly on
/// graphs that are not acyclic, self loops included.
#[verifier::external_body]
fn digraph_has_cycle(g: &petgraph::graph::Graph<(), (), petgraph::Directed, u32>) -> (r: bool)
    ensures
        r == has_cycle(digraph_node_count(*g) as int, digraph_edges(*g)),
{
    petgraph::algo::toposort(g, None).is_err()
}

/// The position of the last step whose identifier is `x`, or `-1`.
pub open spec fn last_index_of(ids: Seq<Seq<char>>, x: Seq<char>) -> int
    decreases ids.len(),
{
    if ids.len() == 0 {
        -1
    } else if ids.last() == x {
        ids.len() - 1
    } else {
        last_index_of(ids.drop_last(), x)
    }
}

/// The edges contributed by the first `k` dependencies of step `i`: each
/// dependency naming a step yields an edge from that step's node to the node
/// of step `i`'s identifier (an identifier names its last step).
pub open spec fn step_edges(steps: Seq<WorkflowStep>, i: int, k: int) -> Seq<(int, int)>
    decreases k,
{
    if k <= 0 {
        seq![]
    } else {
        let prev = step_edges(steps, i, k - 1);
        let d = step_deps(steps[i])[k - 1];
        if step_ids(steps).contains(d) {
            prev.push((last_index_of(step_ids(steps), d), last_index_of(step_ids(steps), steps[i].id@)))
        } else {
            prev
        }
    }
}

/// The edges of a workflow's graph contributed by its first `i` steps, in
/// step and dependency order.
pub open spec fn workflow_edges(steps: Seq<WorkflowStep>, i: int) -> Seq<(int, int)>
    decreases i,
{
    if i <= 0 {
        seq![]
    } else {
        workflow_edges(steps, i - 1) + step_edges(steps, i - 1, step_deps(steps[i - 1]).len() as int)
    }
}

/// The edges of the first `a` dependencies of a step are a prefix of
/// those of the first `b`.
proof fn lemma_step_edges_grow(steps: Seq<WorkflowStep>, i: int, b: int)
    ensures
        forall|a: int| 0 <= a <= b ==> #[trigger] step_edges(steps, i, a).len() <= step_edges(steps, i, b).len(),
    decreases b,
{
    if b > 0 {
        lemma_step_edges_grow(steps, i, b - 1);
    }
}

/// The edges of the first `a` steps are no more than those of the first
/// `b`.
proof fn lemma_workflow_edges_grow(steps: Seq<WorkflowStep>, b: int)
    ensures
        forall|a: int| 0 <= a <= b ==> #[trigger] workflow_edges(steps, a).len() <= workflow_edges(steps, b).len(),
    decreases b,
{
    if b > 0 {
        lemma_workflow_edges_grow(steps, b - 1);
    }
}

proof fn lemma_last_index_of(ids: Seq<Seq<char>>, x: Seq<char>)
    ensures
        ids.contains(x) ==> 0 <= last_index_of(ids, x) < ids.len() && ids[last_index_of(ids, x)] == x,
        !ids.contains(x) ==> last_index_of(ids, x) == -1,
        forall|j: int| last_index_of(ids, x) < j < ids.len() ==> ids[j] != x,
    decreases ids.len(),
{
    if ids.len() > 0 {
        lemma_last_index_of(ids.drop_last(), x);
        if ids.last() != x {
            if ids.contains(x) {
                let j = choose|j: int| 0 <= j < ids.len() && ids[j] == x;
                assert(ids.drop_last()[j] == x);
            }
            if ids.drop_last().contains(x) {
                let j = choose|j: int| 0 <= j < ids.drop_last().len() && ids.drop_last()[j] == x;
                assert(ids[j] == x);
            }
            assert forall|j: int| last_index_of(ids, x) < j < ids.len() implies ids[j] != x by {
                if j < ids.len() - 1 {
                    assert(ids.drop_last()[j] == ids[j]);
                }
            }
        }
    }
}

/// The last position among `0..ids.len()` holding `x` (exec form of `last_index_of`).
fn find_last(steps: &Vec<WorkflowStep>, x: &String) -> (r: Option<usize>)
    ensures
        match r {
            Some(j) => j == last_index_of(step_ids(steps@), x@) && j < steps@.len(),
            None => last_index_of(step_ids(steps@), x@) == -1,
        },
{
    proof {
        lemma_last_index_of(step_ids(steps@), x@);
    }
    let mut i = steps.len();
    while i > 0
        invariant
            i <= steps@.len(),
            forall|j: int| i <= j < steps@.len() ==> steps@[j].id@ != x@,
        decreases i,
    {
        if steps[i - 1].id == *x {
            proof {
                let ids = step_ids(steps@);
                lemma_last_index_of(ids, x@);
                assert(ids[i - 1] == x@);
                assert(ids.contains(x@));
                let l = last_index_of(ids, x@);
                if l < i - 1 {
                    assert(ids[i - 1] != x@);
                } else if l > i - 1 {
                    assert(steps@[l].id@ != x@);
                    assert(ids[l] == steps@[l].id@);
                }
            }
            return Some(i - 1);
        }
        i = i - 1;
    }
    proof {
        if step_ids(steps@).contains(x@) {
            let j = choose|j: int| 0 <= j < step_ids(steps@).len() && step_ids(steps@)[j] == x@;
            assert(steps@[j].id@ == x@);
        }
    }
    None
}

/// The position of the first identifier equal to `x`, or `-1`.
pub open spec fn first_index_of(ids: Seq<Seq<char>>, x: Seq<char>) -> int
    decreases ids.len(),
{
    if ids.len() == 0 {
        -1
    } else {
        let r = first_index_of(ids.drop_last(), x);
        if r >= 0 {
            r
        } else if ids.last() == x {
            ids.len() - 1
        } else {
            -1
        }
    }
}

/// How many of the identifiers are not in `vis` (counted with repetition).
pub open spec fn unvisited(ids: Seq<Seq<char>>, vis: Seq<Seq<char>>) -> nat
    decreases ids.len(),
{
    if ids.len() == 0 {
        0
    } else {
        unvisited(ids.drop_last(), vis) + if vis.contains(ids.last()) { 0nat } else { 1nat }
    }
}

/// Depth-first visit of the step named `id`, given the identifiers already
/// visited and the step positions emitted so far: an identifier already
/// visited adds nothing; otherwise it is marked visited, its first step is
/// looked up (`Err(id)` when there is none), its dependencies are visited in
/// order, and then its position is emitted. `fuel` bounds the depth; the
/// callers give enough that it never runs out.
pub open spec fn visit_spec(
    steps: Seq<WorkflowStep>,
    id: Seq<char>,
    vis: Seq<Seq<char>>,
    out: Seq<int>,
    fuel: nat,
) -> Result<(Seq<Seq<char>>, Seq<int>), Seq<char>>
    decreases fuel, 0int, 0int,
{
    if fuel == 0 {
        Err(id)
    } else if vis.contains(id) {
        Ok((vis, out))
    } else {
        let i = first_index_of(step_ids(steps), id);
        if i < 0 {
            Err(id)
        } else {
            match visit_deps_spec(steps, step_deps(steps[i]), vis.push(id), out, (fuel - 1) as nat) {
                Ok(st) => Ok((st.0, st.1.push(i))),
                Err(e) => Err(e),
            }
        }
    }
}

/// Visits the identifiers `deps` in order, threading the visited set and
/// the emitted positions; stops at the first `Err`.
pub open spec fn visit_deps_spec(
    steps: Seq<WorkflowStep>,
    deps: Seq<Seq<char>>,
    vis: Seq<Seq<char>>,
    out: Seq<int>,
    fuel: nat,
) -> Result<(Seq<Seq<char>>, Seq<int>), Seq<char>>
    decreases fuel, 1int, deps.len(),
{
    if deps.len() == 0 {
        Ok((vis, out))
    } else {
        match visit_deps_spec(steps, deps.drop_last(), vis, out, fuel) {
            Ok(st) => visit_spec(steps, deps.last(), st.0, st.1, fuel),
            Err(e) => Err(e),
        }
    }
}

/// Visits the identifiers of the first `k` steps in order, from nothing
/// visited.
pub open spec fn visit_roots_spec(steps: Seq<WorkflowStep>, k: int) -> Result<(Seq<Seq<char>>, Seq<int>), Seq<char>>
    decreases k,
{
    if k <= 0 {
        Ok((seq![], seq![]))
    } else {
        match visit_roots_spec(steps, k - 1) {
            Ok(st) => visit_spec(steps, steps[k - 1].id@, st.0, st.1, (steps.len() + 1) as nat),
            Err(e) => Err(e),
        }
    }
}

/// The execution plan of a workflow: the step positions in depth-first
/// post-order (dependencies before the step that needs them, each
/// identifier once, through its first step), or the first identifier that
/// names no step.
pub open spec fn execution_plan(steps: Seq<WorkflowStep>) -> Result<Seq<int>, Seq<char>> {
    match visit_roots_spec(steps, steps.len() as int) {
        Ok(st) => Ok(st.1),
        Err(e) => Err(e),
    }
}

/// The steps at the given positions.
pub open spec fn steps_at(steps: Seq<WorkflowStep>, idx: Seq<int>) -> Seq<WorkflowStep> {
    idx.map_values(|i: int| steps[i])
}

pub(crate) proof fn lemma_first_index_of(ids: Seq<Seq<char>>, x: Seq<char>)
    ensures
        ids.contains(x) ==> 0 <= first_index_of(ids, x) < ids.len() && ids[first_index_of(ids, x)] == x,
        !ids.contains(x) ==> first_index_of(ids, x) == -1,
        forall|j: int| 0 <= j < first_index_of(ids, x) ==> ids[j] != x,
    decreases ids.len(),
{
    if ids.len() > 0 {
        let d = ids.drop_last();
        lemma_first_index_of(d, x);
        if d.contains(x) {
            let j = choose|j: int| 0 <= j < d.len() && d[j] == x;
            assert(ids[j] == x);
            assert forall|q: int| 0 <= q < first_index_of(ids, x) implies ids[q] != x by {
                assert(d[q] == ids[q]);
            }
        } else {
            if ids.last() != x {
                if ids.contains(x) {
                    let j = choose|j: int| 0 <= j < ids.len() && ids[j] == x;
                    assert(d[j] == x);
                }
            } else {
                assert forall|q: int| 0 <= q < first_index_of(ids, x) implies ids[q] != x by {
                    if ids[q] == x {
                        assert(d[q] == x);
                    }
                }
            }
        }
    }
}

pub(crate) proof fn lemma_unvisited_mono(ids: Seq<Seq<char>>, v1: Seq<Seq<char>>, v2: Seq<Seq<char>>)
    requires
        forall|x: Seq<char>| v1.contains(x) ==> v2.contains(x),
    ensures
        unvisited(ids, v2) <= unvisited(ids, v1),
        unvisited(ids, v1) <= ids.len(),
    decreases ids.len(),
{
    if ids.len() > 0 {
        lemma_unvisited_mono(ids.drop_last(), v1, v2);
    }
}

pub(crate) proof fn lemma_unvisited_strict(ids: Seq<Seq<char>>, v1: Seq<Seq<char>>, v2: Seq<Seq<char>>, k: int)
    requires
        forall|x: Seq<char>| v1.contains(x) ==> v2.contains(x),
        0 <= k < ids.len(),
        !v1.contains(ids[k]),
        v2.contains(ids[k]),
    ensures
        unvisited(ids, v2) < unvisited(ids, v1),
    decreases ids.len(),
{
    let d = ids.drop_last();
    lemma_unvisited_mono(d, v1, v2);
    if k < ids.len() - 1 {
        assert(d[k] == ids[k]);
        lemma_unvisited_strict(d, v1, v2, k);
    }
}

proof fn lemma_deps_err_sticks(
    steps: Seq<WorkflowStep>,
    deps: Seq<Seq<char>>,
    vis: Seq<Seq<char>>,
    out: Seq<int>,
    fuel: nat,
    j: int,
    j2: int,
)
    requires
        0 <= j <= j2 <= deps.len(),
        visit_deps_spec(steps, deps.subrange(0, j), vis, out, fuel) is Err,
    ensures
        visit_deps_spec(steps, deps.subrange(0, j2), vis, out, fuel) == visit_deps_spec(steps, deps.subrange(0, j), vis, out, fuel),
    decreases j2 - j,
{
    if j2 > j {
        lemma_deps_err_sticks(steps, deps, vis, out, fuel, j, j2 - 1);
        assert(deps.subrange(0, j2).drop_last() =~= deps.subrange(0, j2 - 1));
    }
}

proof fn lemma_roots_err_sticks(steps: Seq<WorkflowStep>, j: int, j2: int)
    requires
        0 <= j <= j2,
        visit_roots_spec(steps, j) is Err,
    ensures
        visit_roots_spec(steps, j2) == visit_roots_spec(steps, j),
    decreases j2 - j,
{
    if j2 > j {
        lemma_roots_err_sticks(steps, j, j2 - 1);
    }
}

proof fn lemma_prefix_contains(a: Seq<String>, b: Seq<String>)
    requires
        a.len() <= b.len(),
        b.subrange(0, a.len() as int) == a,
    ensures
        forall|x: Seq<char>| views(a).contains(x) ==> views(b).contains(x),
{
    assert forall|x: Seq<char>| views(a).contains(x) implies views(b).contains(x) by {
        let j = choose|j: int| 0 <= j < views(a).len() && views(a)[j] == x;
        assert(b[j] == b.subrange(0, a.len() as int)[j]);
        assert(views(b)[j] == x);
    }
}

fn find_first(steps: &Vec<WorkflowStep>, x: &String) -> (r: Option<usize>)
    ensures
        match r {
            Some(j) => j == first_index_of(step_ids(steps@), x@) && j < steps@.len(),
            None => first_index_of(step_ids(steps@), x@) == -1,
        },
{
    let ghost ids = step_ids(steps@);
    proof {
        lemma_first_index_of(ids, x@);
    }
    let mut i: usize = 0;
    while i < steps.len()
        invariant
            i <= steps@.len(),
            ids == step_ids(steps@),
            forall|j: int| 0 <= j < i ==> steps@[j].id@ != x@,
        decreases steps.len() - i,
    {
        if steps[i].id == *x {
            proof {
                lemma_first_index_of(ids, x@);
                assert(ids[i as int] == x@);
                assert(ids.contains(x@));
                let f = first_index_of(ids, x@);
                if f < i {
                    assert(ids[f] == steps@[f].id@);
                }
            }
            return Some(i);
        }
        i = i + 1;
    }
    proof {
        if ids.contains(x@) {
            let j = choose|j: int| 0 <= j < ids.len() && ids[j] == x@;
            assert(steps@[j].id@ == x@);
        }
    }
    None
}

/// Whether a step is ready once the steps with identifiers in `completed`
/// are done: it is not itself completed and all its dependencies are.
pub open spec fn ready_given(s: WorkflowStep, completed: Seq<Seq<char>>) -> bool {
    !completed.contains(s.id@) && forall|k: int| 0 <= k < step_deps(s).len() ==> completed.contains(#[trigger] step_deps(s)[k])
}

/// The ready steps, in workflow order.
pub open spec fn ready_seq(steps: Seq<WorkflowStep>, completed: Seq<Seq<char>>) -> Seq<WorkflowStep>
    decreases steps.len(),
{
    if steps.len() == 0 {
        seq![]
    } else if ready_given(steps.last(), completed) {
        ready_seq(steps.drop_last(), completed).push(steps.last())
    } else {
        ready_seq(steps.drop_last(), completed)
    }
}

fn all_in(deps: &Vec<String>, completed: &[String]) -> (r: bool)
    ensures
        r == forall|k: int| 0 <= k < views(deps@).len() ==> views(completed@).contains(#[trigger] views(deps@)[k]),
{
    let mut k: usize = 0;
    while k < deps.len()
        invariant
            k <= deps@.len(),
            forall|q: int| 0 <= q < k ==> views(completed@).contains(#[trigger] views(deps@)[q]),
        decreases deps.len() - k,
    {
        if !crate::text::contains_string(completed, &deps[k]) {
            proof {
                assert(views(deps@)[k as int] == deps@[k as int]@);
                assert(!views(completed@).contains(views(deps@)[k as int]));
            }
            return false;
        }
        k = k + 1;
    }
    true
}

impl Workflow {
    /// A new empty draft workflow with a fresh identifier.
    pub fn new(name: String) -> (r: Self)
        ensures
            r.name@ == name@,
            r.state == WorkflowState::Draft,
            r.steps@.len() == 0,
            r.description is None,
            r.started_at is None,
            r.completed_at is None,
    {
        let now = now_utc();
        let now2 = now.clone();
        Workflow {
            id: WorkflowId::new(),
            name,
            description: None,
            state: WorkflowState::Draft,
            steps: Vec::new(),
            created_at: now,
            updated_at: now2,
            started_at: None,
            completed_at: None,
        }
    }

    /// Appends a step.
    pub fn with_step(self, step: WorkflowStep) -> (r: Self)
        ensures
            r.steps@ == self.steps@.push(step),
            r.name == self.name,
            r.state == self.state,
    {
        let mut w = self;
        w.steps.push(step);
        w
    }

    /// Checks the dependency graph: `Ok` exactly when the graph built from
    /// the steps has no cycle, otherwise `Err("Workflow contains cycles")`.
    ///
    /// Nodes are step positions; an identifier names its last step; each
    /// dependency that names an existing step yields an edge to the
    /// dependent step's node, and dependencies naming no step are ignored.
    pub fn build_dag(&mut self) -> (r: Result<(), String>)
        requires
            old(self).steps@.len() < u32::MAX,
            workflow_edges(old(self).steps@, old(self).steps@.len() as int).len() < u32::MAX,
        ensures
            *final(self) == *old(self),
            r is Ok <==> !has_cycle(old(self).steps@.len() as int, workflow_edges(old(self).steps@, old(self).steps@.len() as int)),
            r matches Err(msg) ==> msg@ == "Workflow contains cycles"@,
    {
        let n = self.steps.len();
        let ghost steps = self.steps@;
        let mut g = digraph_new();
        let mut i: usize = 0;
        while i < n
            invariant
                n == steps.len() < u32::MAX,
                i <= n,
                digraph_node_count(g) == i,
                digraph_edges(g) == Seq::<(int, int)>::empty(),
            decreases n - i,
        {
            digraph_add_node(&mut g);
            i = i + 1;
        }
        proof {
            lemma_workflow_edges_grow(steps, n as int);
        }
        let mut i: usize = 0;
        while i < n
            invariant
                n == steps.len(),
                steps == self.steps@,
                i <= n,
                digraph_node_count(g) == n,
                digraph_edges(g) == workflow_edges(steps, i as int),
                forall|a: int| 0 <= a <= n ==> #[trigger] workflow_edges(steps, a).len() <= workflow_edges(steps, n as int).len(),
                workflow_edges(steps, n as int).len() < u32::MAX,
            decreases n - i,
        {
            let target = find_last(&self.steps, &self.steps[i].id);
            proof {
                lemma_last_index_of(step_ids(steps), steps[i as int].id@);
                assert(step_ids(steps)[i as int] == steps[i as int].id@);
                assert(step_ids(steps).contains(steps[i as int].id@));
            }
            let target = match target {
                Some(t) => t,
                None => {
                    proof { assert(false); }
                    return Err(String::from_str("Workflow contains cycles"));
                },
            };
            let deps_len = self.steps[i].depends_on.len();
            let ghost base = digraph_edges(g);
            proof {
                assert(workflow_edges(steps, i + 1) == workflow_edges(steps, i as int) + step_edges(steps, i as int, step_deps(steps[i as int]).len() as int));
                assert(workflow_edges(steps, i + 1).len() <= workflow_edges(steps, n as int).len());
                lemma_step_edges_grow(steps, i as int, step_deps(steps[i as int]).len() as int);
            }
            let mut k: usize = 0;
            while k < deps_len
                invariant
                    n == steps.len(),
                    steps == self.steps@,
                    i < n,
                    k <= deps_len == step_deps(steps[i as int]).len(),
                    target == last_index_of(step_ids(steps), steps[i as int].id@),
                    target < n,
                    digraph_node_count(g) == n,
                    base == workflow_edges(steps, i as int),
                    digraph_edges(g) == base + step_edges(steps, i as int, k as int),
                    forall|a: int| 0 <= a <= deps_len ==> #[trigger] step_edges(steps, i as int, a).len() <= step_edges(steps, i as int, deps_len as int).len(),
                    base.len() + step_edges(steps, i as int, deps_len as int).len() < u32::MAX,
                decreases deps_len - k,
            {
                let src = find_last(&self.steps, &self.steps[i].depends_on[k]);
                proof {
                    lemma_last_index_of(step_ids(steps), step_deps(steps[i as int])[k as int]);
                    assert(step_deps(steps[i as int])[k as int] == self.steps@[i as int].depends_on@[k as int]@);
                }
                match src {
                    Some(s) => {
                        proof {
                            assert(step_ids(steps).contains(step_deps(steps[i as int])[k as int]));
                            assert(step_edges(steps, i as int, k + 1).len() <= step_edges(steps, i as int, deps_len as int).len());
                        }
                        digraph_add_edge(&mut g, s, target);
                        proof {
                            assert(digraph_edges(g) =~= base + step_edges(steps, i as int, k + 1));
                        }
                    },
                    None => {
                        proof {
                            assert(!step_ids(steps).contains(step_deps(steps[i as int])[k as int]));
                        }
                    },
                }
                k = k + 1;
            }
            i = i + 1;
        }
        if digraph_has_cycle(&g) {
            Err(String::from_str("Workflow contains cycles"))
        } else {
            Ok(())
        }
    }

    /// Visits the step named `step_id` depth first: see `visit_spec`.
    fn visit_step(
        &self,
        step_id: &String,
        visited: &mut Vec<String>,
        result: &mut Vec<WorkflowStep>,
        Ghost(out): Ghost<Seq<int>>,
        Ghost(fuel): Ghost<nat>,
    ) -> (r: Result<(), String>)
        requires
            fuel > unvisited(step_ids(self.steps@), views(old(visited)@)),
            same_steps(old(result)@, steps_at(self.steps@, out)),
        ensures
            old(visited)@.len() <= final(visited)@.len(),
            final(visited)@.subrange(0, old(visited)@.len() as int) == old(visited)@,
            match visit_spec(self.steps@, step_id@, views(old(visited)@), out, fuel) {
                Ok(st) => r is Ok && views(final(visited)@) == st.0 && same_steps(final(result)@, steps_at(self.steps@, st.1)),
                Err(e) => r matches Err(m) && m@ == "Step not found: "@ + e,
            },
        decreases fuel,
    {
        let ghost steps = self.steps@;
        let ghost ids = step_ids(steps);
        let ghost vis0 = views(visited@);
        let ghost old_visited = visited@;
        if contains_string(visited.as_slice(), step_id) {
            proof {
                assert(visited@.subrange(0, visited@.len() as int) =~= visited@);
            }
            return Ok(());
        }
        visited.push(step_id.clone());
        proof {
            assert(views(visited@) =~= vis0.push(step_id@));
            assert(visited@.subrange(0, old_visited.len() as int) =~= old_visited);
        }
        let found = find_first(&self.steps, step_id);
        let i = match found {
            Some(i) => i,
            None => {
                let mut m = String::from_str("Step not found: ");
                push_str(&mut m, step_id.as_str());
                return Err(m);
            },
        };
        let ghost vis1 = views(visited@);
        proof {
            lemma_first_index_of(ids, step_id@);
            assert(ids[i as int] == steps[i as int].id@);
            assert(vis1.contains(step_id@)) by {
                assert(vis1[vis1.len() - 1] == step_id@);
            }
            assert forall|x: Seq<char>| vis0.contains(x) implies vis1.contains(x) by {
                let q = choose|q: int| 0 <= q < vis0.len() && vis0[q] == x;
                assert(vis1[q] == x);
            }
            lemma_unvisited_strict(ids, vis0, vis1, i as int);
        }
        let ghost deps = step_deps(steps[i as int]);
        let deps_len = self.steps[i].depends_on.len();
        let ghost mut cur_out = out;
        let mut k: usize = 0;
        proof {
            assert(deps.subrange(0, 0) =~= Seq::<Seq<char>>::empty());
        }
        while k < deps_len
            invariant
                steps == self.steps@,
                ids == step_ids(steps),
                i < steps.len(),
                deps == step_deps(steps[i as int]),
                deps_len == deps.len(),
                k <= deps_len,
                fuel >= 1,
                fuel - 1 > unvisited(ids, views(visited@)),
                old_visited == old(visited)@,
                vis0 == views(old_visited),
                !vis0.contains(step_id@),
                vis1 == vis0.push(step_id@),
                first_index_of(ids, step_id@) == i,
                old_visited.len() < visited@.len(),
                visited@.subrange(0, old_visited.len() as int) == old_visited,
                visit_deps_spec(steps, deps.subrange(0, k as int), vis1, out, (fuel - 1) as nat) == Ok::<(Seq<Seq<char>>, Seq<int>), Seq<char>>((views(visited@), cur_out)),
                same_steps(result@, steps_at(steps, cur_out)),
            decreases deps_len - k,
        {
            let ghost before = visited@;
            let ghost before_out = cur_out;
            let r = self.visit_step(&self.steps[i].depends_on[k], visited, result, Ghost(cur_out), Ghost((fuel - 1) as nat));
            proof {
                assert(self.steps@[i as int].depends_on@[k as int]@ == deps[k as int]);
                assert(deps.subrange(0, k + 1).drop_last() =~= deps.subrange(0, k as int));
                assert(deps.subrange(0, k + 1).last() == deps[k as int]);
                assert(old_visited =~= visited@.subrange(0, old_visited.len() as int)) by {
                    assert forall|q: int| 0 <= q < old_visited.len() implies visited@[q] == old_visited[q] by {
                        assert(visited@[q] == visited@.subrange(0, before.len() as int)[q]);
                        assert(before[q] == before.subrange(0, old_visited.len() as int)[q]);
                    }
                }
            }
            match r {
                Ok(()) => {},
                Err(e) => {
                    proof {
                        lemma_deps_err_sticks(steps, deps, vis1, out, (fuel - 1) as nat, k + 1, deps.len() as int);
                        assert(deps.subrange(0, deps.len() as int) =~= deps);
                    }
                    return Err(e);
                },
            }
            proof {
                lemma_prefix_contains(before, visited@);
                lemma_unvisited_mono(ids, views(before), views(visited@));
                cur_out = match visit_spec(steps, deps[k as int], views(before), before_out, (fuel - 1) as nat) {
                    Ok(st) => st.1,
                    Err(_) => before_out,
                };
            }
            k = k + 1;
        }
        proof {
            assert(deps.subrange(0, deps.len() as int) =~= deps);
        }
        let ghost before_push = result@;
        result.push(self.steps[i].duplicate());
        proof {
            assert(steps_at(steps, cur_out.push(i as int)) =~= steps_at(steps, cur_out).push(steps[i as int]));
            assert(same_steps(result@, steps_at(steps, cur_out.push(i as int)))) by {
                assert forall|q: int| 0 <= q < result@.len() implies same_step(#[trigger] result@[q], steps_at(steps, cur_out.push(i as int))[q]) by {
                    if q < before_push.len() {
                        assert(result@[q] == before_push[q]);
                    }
                }
            }
        }
        Ok(())
    }

    /// The steps in execution order: a depth-first walk over the steps in
    /// order that puts each step after its dependencies, each identifier
    /// once (through its first step); `Err("Step not found: <id>")` for the
    /// first identifier met on the walk that names no step.
    pub fn execution_order(&self) -> (r: Result<Vec<WorkflowStep>, String>)
        ensures
            match execution_plan(self.steps@) {
                Ok(idx) => r matches Ok(v) && same_steps(v@, steps_at(self.steps@, idx)),
                Err(id) => r matches Err(m) && m@ == "Step not found: "@ + id,
            },
    {
        let ghost steps = self.steps@;
        let ghost ids = step_ids(steps);
        let mut result: Vec<WorkflowStep> = Vec::new();
        let mut visited: Vec<String> = Vec::new();
        let ghost mut out: Seq<int> = seq![];
        let n = self.steps.len();
        let mut j: usize = 0;
        proof {
            assert(views(visited@) =~= Seq::<Seq<char>>::empty());
            assert(steps_at(steps, out) =~= Seq::<WorkflowStep>::empty());
        }
        while j < n
            invariant
                steps == self.steps@,
                ids == step_ids(steps),
                n == steps.len(),
                j <= n,
                visit_roots_spec(steps, j as int) == Ok::<(Seq<Seq<char>>, Seq<int>), Seq<char>>((views(visited@), out)),
                same_steps(result@, steps_at(steps, out)),
            decreases n - j,
        {
            let ghost before = visited@;
            let ghost before_out = out;
            proof {
                lemma_unvisited_mono(ids, views(visited@), views(visited@));
            }
            let r = self.visit_step(&self.steps[j].id, &mut visited, &mut result, Ghost(out), Ghost((n + 1) as nat));
            match r {
                Ok(()) => {},
                Err(e) => {
                    proof {
                        lemma_roots_err_sticks(steps, j + 1, n as int);
                    }
                    return Err(e);
                },
            }
            proof {
                out = match visit_spec(steps, steps[j as int].id@, views(before), before_out, (n + 1) as nat) {
                    Ok(st) => st.1,
                    Err(_) => before_out,
                };
            }
            j = j + 1;
        }
        Ok(result)
    }

    /// The next wave of a run: `Finished` once as many steps have completed
    /// as the workflow has; otherwise the ready steps (in workflow order), or
    /// `Stalled` when there are none.
    pub fn next_wave(&self, completed: &[String]) -> (r: WaveAction)
        ensures
            completed@.len() >= self.steps@.len() ==> r is Finished,
            completed@.len() < self.steps@.len() ==> match r {
                WaveAction::Finished => false,
                WaveAction::Stalled => ready_seq(self.steps@, views(completed@)).len() == 0,
                WaveAction::Run(w) => ready_seq(self.steps@, views(completed@)).len() > 0
                    && same_steps(w@, ready_seq(self.steps@, views(completed@))),
            },
    {
        if completed.len() >= self.steps.len() {
            return WaveAction::Finished;
        }
        let ready = self.ready_steps(completed);
        if ready.len() == 0 {
            proof {
                assert(ready@.map_values(|s: &WorkflowStep| *s).len() == 0);
            }
            return WaveAction::Stalled;
        }
        let ghost want = ready_seq(self.steps@, views(completed@));
        let mut wave: Vec<WorkflowStep> = Vec::new();
        let mut i: usize = 0;
        while i < ready.len()
            invariant
                i <= ready@.len(),
                want == ready@.map_values(|s: &WorkflowStep| *s),
                wave@.len() == i,
                forall|j: int| 0 <= j < i ==> same_step(#[trigger] wave@[j], want[j]),
            decreases ready.len() - i,
        {
            let step: &WorkflowStep = ready[i];
            wave.push(step.duplicate());
            i = i + 1;
        }
        WaveAction::Run(wave)
    }

    /// The steps that are not completed and whose dependencies all are, in
    /// workflow order.
    pub fn ready_steps(&self, completed: &[String]) -> (r: Vec<&WorkflowStep>)
        ensures
            r@.map_values(|s: &WorkflowStep| *s) == ready_seq(self.steps@, views(completed@)),
    {
        let mut r: Vec<&WorkflowStep> = Vec::new();
        let mut i: usize = 0;
        while i < self.steps.len()
            invariant
                i <= self.steps@.len(),
                r@.map_values(|s: &WorkflowStep| *s) == ready_seq(self.steps@.subrange(0, i as int), views(completed@)),
            decreases self.steps.len() - i,
        {
            let step = &self.steps[i];
            let not_done = !crate::text::contains_string(completed, &step.id);
            let deps_done = all_in(&step.depends_on, completed);
            proof {
                assert(self.steps@.subrange(0, i + 1).drop_last() =~= self.steps@.subrange(0, i as int));
                assert(self.steps@.subrange(0, i + 1).last() == self.steps@[i as int]);
            }
            proof {
                assert(step_deps(*step) == views(step.depends_on@));
                assert((not_done && deps_done) == ready_given(self.steps@[i as int], views(completed@)));
            }
            let ghost old_r = r@;
            if not_done && deps_done {
                r.push(step);
                proof {
                    assert(r@.map_values(|s: &WorkflowStep| *s) =~= old_r.map_values(|s: &WorkflowStep| *s).push(self.steps@[i as int]));
                }
            }
            i = i + 1;
        }
        proof {
            assert(self.steps@.subrange(0, self.steps@.len() as int) =~= self.steps@);
        }
        r
    }
}

} // verus!
