//! Ordering tasks so that each comes after the tasks it depends on.

use vstd::prelude::*;
use vstd::set_lib::{lemma_int_range, lemma_len_subset, lemma_subset_equality, set_int_range};

use crate::domain::tasks::{Task, TaskId, same_task};

verus! {

/// The identifiers a task depends on, as text.
pub open spec fn task_dep_ids(t: Task) -> Seq<Seq<char>> {
    t.depends_on@.map_values(|d: TaskId| d.0@)
}

/// The task at position `i` depends on the task at position `j`: the
/// identifier of `j` is among the dependencies of `i`.
pub open spec fn task_edge(ts: Seq<Task>, i: int, j: int) -> bool {
    0 <= i < ts.len() && 0 <= j < ts.len() && task_dep_ids(ts[i]).contains(ts[j].id.0@)
}

/// The dependencies among the tasks form a cycle (a task depending on
/// itself included).
pub open spec fn task_cycle(ts: Seq<Task>) -> bool {
    exists|p: Seq<int>|
        #![trigger p.len()]
        p.len() >= 2 && p[0] == p[p.len() - 1] && forall|k: int| 0 <= k < p.len() - 1 ==> #[trigger] task_edge(ts, p[k], p[k + 1])
}

/// The task at position `i` can be placed after the positions in `placed`:
/// it is not placed yet and every task it depends on is.
pub open spec fn placeable(ts: Seq<Task>, placed: Seq<int>, i: int) -> bool {
    &&& 0 <= i < ts.len()
    &&& !placed.contains(i)
    &&& forall|j: int| #[trigger] task_edge(ts, i, j) ==> placed.contains(j)
}

/// The first position below `k` that can be placed, or `-1`.
pub open spec fn first_placeable(ts: Seq<Task>, placed: Seq<int>, k: int) -> int
    decreases k,
{
    if k <= 0 {
        -1
    } else {
        let r = first_placeable(ts, placed, k - 1);
        if r >= 0 {
            r
        } else if placeable(ts, placed, k - 1) {
            k - 1
        } else {
            -1
        }
    }
}

/// Places the remaining tasks one at a time, always the first placeable one
/// in list order; `None` when tasks remain but none can be placed.
pub open spec fn place_from(ts: Seq<Task>, placed: Seq<int>) -> Option<Seq<int>>
    decreases ts.len() - placed.len(),
{
    if placed.len() >= ts.len() {
        Some(placed)
    } else {
        let i = first_placeable(ts, placed, ts.len() as int);
        if i < 0 {
            None
        } else {
            place_from(ts, placed.push(i))
        }
    }
}

/// The dependency order of the tasks, as positions, or `None` when it gets
/// stuck.
pub open spec fn task_order(ts: Seq<Task>) -> Option<Seq<int>> {
    place_from(ts, seq![])
}

/// A list of positions respects the dependencies: each position is in
/// range and listed once, and every task that a listed task depends on is
/// listed before it.
pub open spec fn respects_deps(ts: Seq<Task>, idx: Seq<int>) -> bool {
    &&& forall|q: int| 0 <= q < idx.len() ==> 0 <= #[trigger] idx[q] < ts.len()
    &&& idx.no_duplicates()
    &&& forall|q: int, j: int| 0 <= q < idx.len() && #[trigger] task_edge(ts, idx[q], j) ==> idx.subrange(0, q).contains(j)
}

proof fn lemma_first_placeable(ts: Seq<Task>, placed: Seq<int>, k: int)
    ensures
        first_placeable(ts, placed, k) >= 0 ==> first_placeable(ts, placed, k) < k && placeable(ts, placed, first_placeable(ts, placed, k)),
        first_placeable(ts, placed, k) < 0 ==> forall|i: int| 0 <= i < k ==> !placeable(ts, placed, i),
    decreases k,
{
    if k > 0 {
        lemma_first_placeable(ts, placed, k - 1);
    }
}

proof fn lemma_first_placeable_sticks(ts: Seq<Task>, placed: Seq<int>, k: int, k2: int)
    requires
        k <= k2,
        first_placeable(ts, placed, k) >= 0,
    ensures
        first_placeable(ts, placed, k2) == first_placeable(ts, placed, k),
    decreases k2 - k,
{
    if k2 > k {
        lemma_first_placeable_sticks(ts, placed, k, k2 - 1);
    }
}

/// A list of distinct positions below `n` has at most `n` entries, and
/// with exactly `n` it lists every position.
proof fn lemma_range_pigeonhole(s: Seq<int>, n: int)
    requires
        0 <= n,
        s.no_duplicates(),
        forall|k: int| 0 <= k < s.len() ==> 0 <= #[trigger] s[k] < n,
    ensures
        s.len() <= n,
        s.len() == n ==> forall|j: int| 0 <= j < n ==> s.contains(j),
{
    s.unique_seq_to_set();
    let r = set_int_range(0, n);
    lemma_int_range(0, n);
    assert(s.to_set().subset_of(r)) by {
        assert forall|x: int| s.to_set().contains(x) implies r.contains(x) by {
            let k = choose|k: int| 0 <= k < s.len() && s[k] == x;
        }
    }
    lemma_len_subset(s.to_set(), r);
    if s.len() == n {
        lemma_subset_equality(s.to_set(), r);
        assert forall|j: int| 0 <= j < n implies s.contains(j) by {
            assert(r.contains(j));
            assert(s.to_set().contains(j));
        }
    }
}

proof fn lemma_place_from_good(ts: Seq<Task>, placed: Seq<int>)
    requires
        respects_deps(ts, placed),
    ensures
        place_from(ts, placed) matches Some(r) ==> respects_deps(ts, r) && r.len() == ts.len()
            && placed.len() <= r.len() && r.subrange(0, placed.len() as int) == placed,
    decreases ts.len() - placed.len(),
{
    lemma_range_pigeonhole(placed, ts.len() as int);
    if placed.len() < ts.len() {
        let i = first_placeable(ts, placed, ts.len() as int);
        lemma_first_placeable(ts, placed, ts.len() as int);
        if i >= 0 {
            let p2 = placed.push(i);
            assert(respects_deps(ts, p2)) by {
                assert forall|q: int| 0 <= q < p2.len() implies 0 <= #[trigger] p2[q] < ts.len() by {
                    if q < placed.len() {
                        assert(p2[q] == placed[q]);
                    }
                }
                assert forall|a: int, b: int| 0 <= a < b < p2.len() implies p2[a] != p2[b] by {
                    if b < placed.len() {
                        assert(p2[a] == placed[a] && p2[b] == placed[b]);
                    } else {
                        assert(p2[a] == placed[a]);
                        assert(placed.contains(placed[a]));
                    }
                }
                assert forall|q: int, j: int| 0 <= q < p2.len() && #[trigger] task_edge(ts, p2[q], j) implies p2.subrange(0, q).contains(j) by {
                    if q < placed.len() {
                        assert(p2[q] == placed[q]);
                        assert(p2.subrange(0, q) =~= placed.subrange(0, q));
                    } else {
                        assert(p2.subrange(0, q) =~= placed);
                    }
                }
            }
            lemma_place_from_good(ts, p2);
            if let Some(r) = place_from(ts, p2) {
                assert(r.subrange(0, placed.len() as int) =~= r.subrange(0, p2.len() as int).subrange(0, placed.len() as int));
                assert(p2.subrange(0, placed.len() as int) =~= placed);
            }
        }
    } else {
        assert(placed.subrange(0, placed.len() as int) =~= placed);
    }
}

/// The next step of a walk that stays among unplaced tasks: a task that
/// the given one depends on and that is not placed.
spec fn next_unplaced(ts: Seq<Task>, placed: Seq<int>, i: int) -> int {
    choose|j: int| task_edge(ts, i, j) && !placed.contains(j)
}

/// A walk of `k` steps from `start` along dependencies among unplaced
/// tasks.
spec fn walk(ts: Seq<Task>, placed: Seq<int>, start: int, k: nat) -> int
    decreases k,
{
    if k == 0 {
        start
    } else {
        next_unplaced(ts, placed, walk(ts, placed, start, (k - 1) as nat))
    }
}

proof fn lemma_walk(ts: Seq<Task>, placed: Seq<int>, start: int, k: nat)
    requires
        0 <= start < ts.len(),
        !placed.contains(start),
        forall|i: int| 0 <= i < ts.len() && !placed.contains(i) ==> !placeable(ts, placed, i),
    ensures
        0 <= walk(ts, placed, start, k) < ts.len(),
        !placed.contains(walk(ts, placed, start, k)),
        task_edge(ts, walk(ts, placed, start, k), walk(ts, placed, start, k + 1)),
    decreases k,
{
    if k > 0 {
        lemma_walk(ts, placed, start, (k - 1) as nat);
    }
    let w = walk(ts, placed, start, k);
    assert(!placeable(ts, placed, w));
    assert(exists|j: int| task_edge(ts, w, j) && !placed.contains(j));
}

/// Fewer than `n` distinct positions below `n` leave one out.
proof fn lemma_some_unplaced(placed: Seq<int>, n: int) -> (i: int)
    requires
        0 <= n,
        placed.no_duplicates(),
        placed.len() < n,
    ensures
        0 <= i < n,
        !placed.contains(i),
{
    if forall|i: int| 0 <= i < n ==> placed.contains(i) {
        placed.unique_seq_to_set();
        let r = set_int_range(0, n);
        lemma_int_range(0, n);
        assert(r.subset_of(placed.to_set())) by {
            assert forall|x: int| r.contains(x) implies placed.to_set().contains(x) by {
                assert(placed.contains(x));
            }
        }
        lemma_len_subset(r, placed.to_set());
    }
    choose|i: int| 0 <= i < n && !placed.contains(i)
}

/// `n + 1` positions below `n` repeat one.
proof fn lemma_repeat(w: Seq<int>, n: int) -> (pair: (int, int))
    requires
        0 <= n,
        w.len() == n + 1,
        forall|k: int| 0 <= k < w.len() ==> 0 <= #[trigger] w[k] < n,
    ensures
        0 <= pair.0 < pair.1 < w.len(),
        w[pair.0] == w[pair.1],
{
    if w.no_duplicates() {
        lemma_range_pigeonhole(w, n);
    }
    let (a, b) = choose|a: int, b: int| 0 <= a < w.len() && 0 <= b < w.len() && a != b && w[a] == w[b];
    if a < b {
        (a, b)
    } else {
        (b, a)
    }
}

proof fn lemma_stuck_has_cycle(ts: Seq<Task>, placed: Seq<int>)
    requires
        respects_deps(ts, placed),
        placed.len() < ts.len(),
        forall|i: int| 0 <= i < ts.len() && !placed.contains(i) ==> !placeable(ts, placed, i),
    ensures
        task_cycle(ts),
{
    let n = ts.len() as int;
    let start = lemma_some_unplaced(placed, n);
    let w = Seq::new((n + 1) as nat, |k: int| walk(ts, placed, start, k as nat));
    assert forall|k: int| 0 <= k < w.len() implies 0 <= #[trigger] w[k] < n by {
        lemma_walk(ts, placed, start, k as nat);
    }
    let (lo, hi) = lemma_repeat(w, n);
    let p = w.subrange(lo, hi + 1);
    assert forall|k: int| 0 <= k < p.len() - 1 implies #[trigger] task_edge(ts, p[k], p[k + 1]) by {
        lemma_walk(ts, placed, start, (lo + k) as nat);
        assert(p[k] == w[lo + k]);
        assert(p[k + 1] == w[lo + k + 1]);
    }
    assert(p[0] == p[p.len() - 1]);
    assert(task_cycle(ts));
}

proof fn lemma_place_from_none(ts: Seq<Task>, placed: Seq<int>)
    requires
        respects_deps(ts, placed),
        place_from(ts, placed) is None,
    ensures
        task_cycle(ts),
    decreases ts.len() - placed.len(),
{
    lemma_range_pigeonhole(placed, ts.len() as int);
    let i = first_placeable(ts, placed, ts.len() as int);
    lemma_first_placeable(ts, placed, ts.len() as int);
    if i < 0 {
        lemma_stuck_has_cycle(ts, placed);
    } else {
        let p2 = placed.push(i);
        assert(respects_deps(ts, p2)) by {
            assert forall|q: int| 0 <= q < p2.len() implies 0 <= #[trigger] p2[q] < ts.len() by {
                if q < placed.len() {
                    assert(p2[q] == placed[q]);
                }
            }
            assert forall|a: int, b: int| 0 <= a < b < p2.len() implies p2[a] != p2[b] by {
                if b < placed.len() {
                    assert(p2[a] == placed[a] && p2[b] == placed[b]);
                } else {
                    assert(p2[a] == placed[a]);
                    assert(placed.contains(placed[a]));
                }
            }
            assert forall|q: int, j: int| 0 <= q < p2.len() && #[trigger] task_edge(ts, p2[q], j) implies p2.subrange(0, q).contains(j) by {
                if q < placed.len() {
                    assert(p2[q] == placed[q]);
                    assert(p2.subrange(0, q) =~= placed.subrange(0, q));
                } else {
                    assert(p2.subrange(0, q) =~= placed);
                }
            }
        }
        lemma_place_from_none(ts, p2);
    }
}

/// The position of `x` in a list that holds it.
spec fn pos_of(r: Seq<int>, x: int) -> int {
    choose|q: int| 0 <= q < r.len() && r[q] == x
}

proof fn lemma_cycle_descends(ts: Seq<Task>, r: Seq<int>, p: Seq<int>, k: int)
    requires
        respects_deps(ts, r),
        r.len() == ts.len(),
        p.len() >= 2,
        forall|m: int| 0 <= m < p.len() - 1 ==> #[trigger] task_edge(ts, p[m], p[m + 1]),
        1 <= k < p.len(),
    ensures
        0 <= pos_of(r, p[k]) < pos_of(r, p[0]),
        r[pos_of(r, p[k])] == p[k],
    decreases k,
{
    lemma_range_pigeonhole(r, ts.len() as int);
    let prev = p[k - 1];
    assert(task_edge(ts, p[k - 1], p[(k - 1) + 1]));
    assert(p[(k - 1) + 1] == p[k]);
    assert(r.contains(prev));
    let qp = pos_of(r, prev);
    assert(r[qp] == prev);
    assert(task_edge(ts, r[qp], p[k]));
    assert(r.subrange(0, qp).contains(p[k]));
    let q2 = choose|q2: int| 0 <= q2 < qp && r.subrange(0, qp)[q2] == p[k];
    assert(r[q2] == p[k]);
    assert(r.contains(p[k]));
    let qk = pos_of(r, p[k]);
    assert(qk == q2) by {
        if qk != q2 {
            assert(r[qk] == r[q2]);
        }
    }
    if k > 1 {
        lemma_cycle_descends(ts, r, p, k - 1);
    } else {
        assert(r.contains(p[0]));
    }
}

/// The dependency order exists exactly when the dependencies form no
/// cycle; when it exists it lists every task once, each after every task
/// it depends on.
pub proof fn lemma_task_order(ts: Seq<Task>)
    ensures
        task_order(ts) is None <==> task_cycle(ts),
        task_order(ts) matches Some(r) ==> respects_deps(ts, r) && r.len() == ts.len()
            && forall|j: int| 0 <= j < ts.len() ==> r.contains(j),
{
    let empty: Seq<int> = seq![];
    assert(respects_deps(ts, empty)) by {
        assert forall|q: int, j: int| 0 <= q < empty.len() && #[trigger] task_edge(ts, empty[q], j) implies empty.subrange(0, q).contains(j) by {
        }
    }
    lemma_place_from_good(ts, empty);
    if task_order(ts) is None {
        lemma_place_from_none(ts, empty);
    } else {
        let r = task_order(ts)->Some_0;
        lemma_range_pigeonhole(r, ts.len() as int);
        if task_cycle(ts) {
            let p = choose|p: Seq<int>|
                #![trigger p.len()]
                p.len() >= 2 && p[0] == p[p.len() - 1] && forall|k: int| 0 <= k < p.len() - 1 ==> #[trigger] task_edge(ts, p[k], p[k + 1]);
            lemma_cycle_descends(ts, r, p, p.len() - 1);
        }
    }
}

/// Whether the task at position `i` can be placed after `placed`.
fn is_placeable(tasks: &[Task], placed: &Vec<usize>, i: usize) -> (r: bool)
    requires
        i < tasks@.len(),
    ensures
        r == placeable(tasks@, placed@.map_values(|x: usize| x as int), i as int),
{
    let ghost ps = placed@.map_values(|x: usize| x as int);
    let ghost ts = tasks@;
    let mut q: usize = 0;
    while q < placed.len()
        invariant
            q <= placed@.len(),
            ps == placed@.map_values(|x: usize| x as int),
            forall|m: int| 0 <= m < q ==> ps[m] != i,
        decreases placed.len() - q,
    {
        if placed[q] == i {
            proof {
                assert(ps[q as int] == i);
            }
            return false;
        }
        q = q + 1;
    }
    let deps = &tasks[i].depends_on;
    let n = tasks.len();
    let mut k: usize = 0;
    while k < deps.len()
        invariant
            ts == tasks@,
            n == ts.len(),
            i < n,
            *deps == ts[i as int].depends_on,
            k <= deps@.len(),
            ps == placed@.map_values(|x: usize| x as int),
            !ps.contains(i as int),
            forall|kk: int, j: int| 0 <= kk < k && 0 <= j < n && #[trigger] deps@[kk].0@ == #[trigger] ts[j].id.0@ ==> ps.contains(j),
        decreases deps.len() - k,
    {
        let mut j: usize = 0;
        while j < n
            invariant
                ts == tasks@,
                n == ts.len(),
                i < n,
                *deps == ts[i as int].depends_on,
                k < deps@.len(),
                ps == placed@.map_values(|x: usize| x as int),
                !ps.contains(i as int),
                forall|kk: int, jj: int| 0 <= kk < k && 0 <= jj < n && #[trigger] deps@[kk].0@ == #[trigger] ts[jj].id.0@ ==> ps.contains(jj),
                forall|jj: int| 0 <= jj < j && #[trigger] ts[jj].id.0@ == deps@[k as int].0@ ==> ps.contains(jj),
                j <= n,
            decreases n - j,
        {
            if tasks[j].id.0 == deps[k].0 {
                let mut found = false;
                let mut q: usize = 0;
                while q < placed.len()
                    invariant
                        q <= placed@.len(),
                        ps == placed@.map_values(|x: usize| x as int),
                        found ==> ps.contains(j as int),
                        !found ==> forall|m: int| 0 <= m < q ==> ps[m] != j,
                    decreases placed.len() - q,
                {
                    if placed[q] == j {
                        proof {
                            assert(ps[q as int] == j);
                        }
                        found = true;
                    }
                    q = q + 1;
                }
                if !found {
                    proof {
                        assert(task_dep_ids(ts[i as int])[k as int] == ts[j as int].id.0@);
                        assert(task_edge(ts, i as int, j as int));
                        if ps.contains(j as int) {
                            let m = choose|m: int| 0 <= m < ps.len() && ps[m] == j;
                            assert(placed@[m] == j);
                        }
                    }
                    return false;
                }
            }
            j = j + 1;
        }
        k = k + 1;
    }
    proof {
        assert forall|j: int| #[trigger] task_edge(ts, i as int, j) implies ps.contains(j) by {
            let kk = choose|kk: int| 0 <= kk < task_dep_ids(ts[i as int]).len() && task_dep_ids(ts[i as int])[kk] == ts[j].id.0@;
            assert(deps@[kk].0@ == ts[j].id.0@);
        }
    }
    true
}

/// The tasks in dependency order, or `None` when their dependencies form a
/// cycle. Tasks are placed one at a time, always the first (in list order)
/// whose dependencies among the listed tasks are all placed; dependencies
/// on tasks not in the list are ignored.
pub fn checked_topological_sort_tasks(tasks: &[Task]) -> (r: Option<Vec<Task>>)
    ensures
        match task_order(tasks@) {
            Some(idx) => r matches Some(v) && v@.len() == idx.len()
                && forall|k: int| 0 <= k < idx.len() ==> same_task(#[trigger] v@[k], tasks@[idx[k]]),
            None => r is None,
        },
{
    let ghost ts = tasks@;
    let n = tasks.len();
    let mut placed: Vec<usize> = Vec::new();
    let mut out: Vec<Task> = Vec::new();
    proof {
        assert(placed@.map_values(|x: usize| x as int) =~= Seq::<int>::empty());
    }
    while placed.len() < n
        invariant
            ts == tasks@,
            n == ts.len(),
            placed@.len() <= n,
            place_from(ts, seq![]) == place_from(ts, placed@.map_values(|x: usize| x as int)),
            out@.len() == placed@.len(),
            forall|k: int| 0 <= k < placed@.len() ==> (#[trigger] placed@[k]) < n,
            forall|k: int| 0 <= k < out@.len() ==> same_task(#[trigger] out@[k], ts[placed@[k] as int]),
        decreases n - placed.len(),
    {
        let ghost ps = placed@.map_values(|x: usize| x as int);
        let mut i: usize = 0;
        let mut chosen: Option<usize> = None;
        while i < n
            invariant
                ts == tasks@,
                n == ts.len(),
                i <= n,
                ps == placed@.map_values(|x: usize| x as int),
                chosen is None ==> first_placeable(ts, ps, i as int) == -1,
                chosen matches Some(c) ==> c < n && first_placeable(ts, ps, n as int) == c,
            decreases n - i,
        {
            if chosen.is_none() {
                if is_placeable(tasks, &placed, i) {
                    proof {
                        assert(first_placeable(ts, ps, i + 1) == i);
                        lemma_first_placeable_sticks(ts, ps, i + 1, n as int);
                    }
                    chosen = Some(i);
                }
            }
            i = i + 1;
        }
        match chosen {
            None => {
                return None;
            },
            Some(c) => {
                out.push(tasks[c].duplicate());
                placed.push(c);
                proof {
                    assert(placed@.map_values(|x: usize| x as int) =~= ps.push(c as int));
                }
            },
        }
    }
    proof {
        let ps = placed@.map_values(|x: usize| x as int);
        assert forall|k: int| 0 <= k < ps.len() implies same_task(#[trigger] out@[k], ts[ps[k]]) by {
            assert(ps[k] == placed@[k] as int);
        }
    }
    Some(out)
}

/// The tasks in dependency order: each after every listed task it depends
/// on, placed one at a time, always the first (in list order) whose
/// dependencies among the listed tasks are all placed; dependencies on
/// tasks not in the list are ignored. The dependencies must not form a
/// cycle.
pub fn topological_sort_tasks(tasks: &[Task]) -> (r: Vec<Task>)
    requires
        !task_cycle(tasks@),
    ensures
        task_order(tasks@) matches Some(idx) && r@.len() == idx.len()
            && forall|k: int| 0 <= k < idx.len() ==> same_task(#[trigger] r@[k], tasks@[idx[k]]),
{
    proof {
        lemma_task_order(tasks@);
    }
    match checked_topological_sort_tasks(tasks) {
        Some(v) => v,
        None => {
            proof {
                assert(false);
            }
            Vec::new()
        },
    }
}

} // verus!
