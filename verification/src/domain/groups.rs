//! Group identifiers.

use vstd::prelude::*;

use crate::domain::errors::TaskError;
use crate::domain::tasks::TaskId;
use crate::external::{new_uuid_string, now_utc};

verus! {

/// Unique group identifier.
#[derive(Debug, Clone, PartialEq, Eq, Hash)]
pub struct GroupId(pub String);

impl GroupId {
    /// A fresh random identifier.
    pub fn new() -> (r: Self)
        ensures
            r.0@.len() == 36,
    {
        GroupId(new_uuid_string())
    }

    /// An identifier with the given text.
    pub fn from_string(id: &str) -> (r: Self)
        ensures
            r.0@ == id@,
    {
        GroupId(String::from_str(id))
    }
}

impl Default for GroupId {
    fn default() -> (r: Self)
        ensures
            r.0@.len() == 36,
    {
        GroupId::new()
    }
}

/// A named collection of tasks.
#[derive(Debug, Clone)]
pub struct Group {
    /// Unique identifier.
    pub id: GroupId,
    /// Human-readable name.
    pub name: String,
    /// Optional description.
    pub description: Option<String>,
    /// The tasks that belong to the group, in the order they were added.
    pub task_ids: Vec<TaskId>,
    /// Created timestamp (RFC 3339, UTC).
    pub created_at: String,
    /// Updated timestamp (RFC 3339, UTC).
    pub updated_at: String,
}

impl Group {
    /// A new group named `name`, with a fresh identifier, no description
    /// and no tasks.
    pub fn new(name: &str) -> (r: Self)
        ensures
            r.name@ == name@,
            r.description is None,
            r.task_ids@.len() == 0,
            r.id.0@.len() == 36,
    {
        let now = now_utc();
        let now2 = now.clone();
        Group {
            id: GroupId::new(),
            name: String::from_str(name),
            description: None,
            task_ids: Vec::new(),
            created_at: now,
            updated_at: now2,
        }
    }

    /// Sets the description.
    pub fn with_description(self, desc: &str) -> (r: Self)
        ensures
            r.description matches Some(d) && d@ == desc@,
            r.name == self.name,
            r.task_ids == self.task_ids,
    {
        let mut g = self;
        g.description = Some(String::from_str(desc));
        g
    }

    /// Adds a task after the existing ones.
    pub fn with_task(self, task_id: TaskId) -> (r: Self)
        ensures
            r.task_ids@ == self.task_ids@.push(task_id),
            r.name == self.name,
            r.description == self.description,
    {
        let mut g = self;
        g.task_ids.push(task_id);
        g
    }

    /// Whether the group has no tasks.
    pub fn is_empty(&self) -> (r: bool)
        ensures
            r == (self.task_ids@.len() == 0),
    {
        self.task_ids.len() == 0
    }
}


/// Whether no group among `groups` before position `k` is named `name`.
pub open spec fn none_named_before(groups: Seq<Group>, name: Seq<char>, k: int) -> bool {
    forall|j: int| 0 <= j < k ==> #[trigger] groups[j].name@ != name
}

/// The first of `groups` whose name is `name`; `NotFound(name)` when no
/// group has that name.
pub fn find_group_by_name(groups: Vec<Group>, name: &str) -> (r: Result<Group, TaskError>)
    ensures
        r is Ok ==> r->Ok_0.name@ == name@,
        r is Ok ==> exists|k: int|
            0 <= k < groups@.len() && groups@[k] == r->Ok_0 && none_named_before(groups@, name@, k),
        r is Err ==> (r->Err_0 matches TaskError::NotFound(n) && n@ == name@)
            && none_named_before(groups@, name@, groups@.len() as int),
{
    let target = String::from_str(name);
    let ghost all = groups@;
    let mut pool = groups;
    let mut i: usize = 0;
    while i < pool.len()
        invariant
            pool@ == all,
            all == groups@,
            target@ == name@,
            i <= all.len(),
            none_named_before(all, name@, i as int),
        decreases pool.len() - i,
    {
        if pool[i].name == target {
            let g = pool.remove(i);
            proof {
                assert(g == all[i as int]);
            }
            return Ok(g);
        }
        i = i + 1;
    }
    Err(TaskError::NotFound(target))
}

} // verus!
