//! Task queries: fetching one task, listing tasks with filters, and a
//! task's history. Fetching from storage happens outside the library; the
//! selection of listed tasks is here.

use vstd::prelude::*;

use crate::domain::tasks::{Task, TaskId, TaskState};
use crate::text::{contains_string, views};

verus! {

/// A request for one task.
pub struct GetTask {
    pub task_id: TaskId,
}

impl GetTask {
    /// A request for `task_id`.
    pub fn new(task_id: TaskId) -> (r: Self)
        ensures
            r.task_id == task_id,
    {
        GetTask { task_id }
    }
}

/// A request to list tasks.
pub struct ListTasks {
    pub state_filter: Option<TaskState>,
    pub tag_filter: Option<String>,
    pub limit: Option<usize>,
}

impl Default for ListTasks {
    fn default() -> (r: Self)
        ensures
            r.state_filter is None,
            r.tag_filter is None,
            r.limit == Some(100usize),
    {
        ListTasks { state_filter: None, tag_filter: None, limit: Some(100) }
    }
}

/// Whether a task passes the state and tag filters.
pub open spec fn passes(t: Task, state: Option<TaskState>, tag: Option<Seq<char>>) -> bool {
    &&& (state matches Some(s) ==> t.state == s)
    &&& (tag matches Some(g) ==> views(t.tags@).contains(g))
}

/// The tasks that pass the filters, in order.
pub open spec fn filtered(ts: Seq<Task>, state: Option<TaskState>, tag: Option<Seq<char>>) -> Seq<Task>
    decreases ts.len(),
{
    if ts.len() == 0 {
        seq![]
    } else if passes(ts.last(), state, tag) {
        filtered(ts.drop_last(), state, tag).push(ts.last())
    } else {
        filtered(ts.drop_last(), state, tag)
    }
}

impl ListTasks {
    /// A request with no filters and a limit of 100.
    pub fn new() -> (r: Self)
        ensures
            r.state_filter is None,
            r.tag_filter is None,
            r.limit == Some(100usize),
    {
        ListTasks::default()
    }

    /// Keeps only tasks in `state`.
    pub fn with_state(self, state: TaskState) -> (r: Self)
        ensures
            r.state_filter == Some(state),
            r.tag_filter == self.tag_filter,
            r.limit == self.limit,
    {
        let mut s = self;
        s.state_filter = Some(state);
        s
    }

    /// Keeps only tasks tagged `tag`.
    pub fn with_tag(self, tag: &str) -> (r: Self)
        ensures
            r.tag_filter matches Some(g) && g@ == tag@,
            r.state_filter == self.state_filter,
            r.limit == self.limit,
    {
        let mut s = self;
        s.tag_filter = Some(String::from_str(tag));
        s
    }

    /// Returns at most `limit` tasks.
    pub fn with_limit(self, limit: usize) -> (r: Self)
        ensures
            r.limit == Some(limit),
            r.state_filter == self.state_filter,
            r.tag_filter == self.tag_filter,
    {
        let mut s = self;
        s.limit = Some(limit);
        s
    }

    /// The tag filter's text.
    pub open spec fn tag_view(self) -> Option<Seq<char>> {
        match self.tag_filter {
            Some(g) => Some(g@),
            None => None,
        }
    }

    /// Applies the request to the stored tasks: keeps, in order, those
    /// that pass the state and tag filters, then at most `limit` of them.
    pub fn select(&self, tasks: Vec<Task>) -> (r: Vec<Task>)
        ensures
            ({
                let f = filtered(tasks@, self.state_filter, self.tag_view());
                r@ == match self.limit {
                    Some(n) => if n < f.len() { f.take(n as int) } else { f },
                    None => f,
                }
            }),
    {
        let ghost ts = tasks@;
        let mut src = tasks;
        let mut out: Vec<Task> = Vec::new();
        proof {
            assert(ts.take(0) =~= Seq::<Task>::empty());
            assert(ts.skip(0) =~= ts);
        }
        while src.len() > 0
            invariant
                src@.len() <= ts.len(),
                src@ == ts.skip(ts.len() - src@.len()),
                out@ == filtered(ts.take(ts.len() - src@.len()), self.state_filter, self.tag_view()),
            decreases src@.len(),
        {
            let ghost i = ts.len() - src@.len();
            let t = src.remove(0);
            proof {
                assert(t == ts[i]);
                assert(ts.take(i + 1).drop_last() =~= ts.take(i));
                assert(ts.take(i + 1).last() == ts[i]);
                assert(src@ =~= ts.skip(ts.len() - src@.len()));
            }
            let keep_state = match self.state_filter {
                Some(s) => t.state == s,
                None => true,
            };
            let keep_tag = match &self.tag_filter {
                Some(g) => contains_string(t.tags.as_slice(), g),
                None => true,
            };
            if keep_state && keep_tag {
                out.push(t);
            }
        }
        proof {
            assert(ts.take(ts.len() as int) =~= ts);
        }
        match self.limit {
            Some(n) => {
                if n < out.len() {
                    out.truncate(n);
                }
            },
            None => {},
        }
        out
    }
}

/// A request for a task's event history.
pub struct GetTaskHistory {
    pub task_id: TaskId,
}

impl GetTaskHistory {
    /// A request for the history of `task_id`.
    pub fn new(task_id: TaskId) -> (r: Self)
        ensures
            r.task_id == task_id,
    {
        GetTaskHistory { task_id }
    }
}

/// How many of the tasks are in state `st`.
pub open spec fn count_in_state(tasks: Seq<Task>, st: TaskState) -> nat
    decreases tasks.len(),
{
    if tasks.len() == 0 {
        0
    } else {
        count_in_state(tasks.drop_last(), st) + if tasks.last().state == st { 1nat } else { 0nat }
    }
}

proof fn lemma_count_le(tasks: Seq<Task>, st: TaskState)
    ensures
        count_in_state(tasks, st) <= tasks.len(),
    decreases tasks.len(),
{
    if tasks.len() > 0 {
        lemma_count_le(tasks.drop_last(), st);
    }
}

fn count_state(tasks: &[Task], st: TaskState) -> (r: usize)
    ensures
        r == count_in_state(tasks@, st),
{
    let mut n: usize = 0;
    let mut i: usize = 0;
    while i < tasks.len()
        invariant
            i <= tasks@.len(),
            n == count_in_state(tasks@.subrange(0, i as int), st),
        decreases tasks.len() - i,
    {
        proof {
            assert(tasks@.subrange(0, i + 1).drop_last() =~= tasks@.subrange(0, i as int));
            lemma_count_le(tasks@.subrange(0, i as int), st);
        }
        if tasks[i].state == st {
            n = n + 1;
        }
        i = i + 1;
    }
    proof {
        assert(tasks@.subrange(0, tasks@.len() as int) =~= tasks@);
    }
    n
}

/// The task summary: the number of tasks pending, running, completed,
/// failed and cancelled, each with its label, then the total.
pub fn state_summary(tasks: &[Task]) -> (r: Vec<(&'static str, usize)>)
    ensures
        r@.len() == 6,
        r@[0].0@ == "pending"@ && r@[0].1 == count_in_state(tasks@, TaskState::Pending),
        r@[1].0@ == "running"@ && r@[1].1 == count_in_state(tasks@, TaskState::Running),
        r@[2].0@ == "completed"@ && r@[2].1 == count_in_state(tasks@, TaskState::Completed),
        r@[3].0@ == "failed"@ && r@[3].1 == count_in_state(tasks@, TaskState::Failed),
        r@[4].0@ == "cancelled"@ && r@[4].1 == count_in_state(tasks@, TaskState::Cancelled),
        r@[5].0@ == "total"@ && r@[5].1 == tasks@.len(),
{
    let mut r: Vec<(&'static str, usize)> = Vec::new();
    r.push(("pending", count_state(tasks, TaskState::Pending)));
    r.push(("running", count_state(tasks, TaskState::Running)));
    r.push(("completed", count_state(tasks, TaskState::Completed)));
    r.push(("failed", count_state(tasks, TaskState::Failed)));
    r.push(("cancelled", count_state(tasks, TaskState::Cancelled)));
    r.push(("total", tasks.len()));
    r
}

} // verus!
