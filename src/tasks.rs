//! Catalog entries: a task name and an optional description.
use vstd::prelude::*;

verus! {

/// One runnable task as a catalog lists it.
#[derive(Debug, Clone, PartialEq, Eq)]
pub struct TaskItem {
    pub name: String,
    pub description: Option<String>,
}

/// A catalog entry as mathematics.
pub struct Task {
    pub name: Seq<char>,
    pub description: Option<Seq<char>>,
}

pub open spec fn opt_view(o: Option<String>) -> Option<Seq<char>> {
    match o {
        Some(s) => Some(s@),
        None => None,
    }
}

impl View for TaskItem {
    type V = Task;

    open spec fn view(&self) -> Task {
        Task { name: self.name@, description: opt_view(self.description) }
    }
}

pub open spec fn task_views(v: Seq<TaskItem>) -> Seq<Task> {
    v.map_values(|t: TaskItem| t@)
}

/// Every task has a name.
pub open spec fn named(ts: Seq<Task>) -> bool {
    forall|i: int| 0 <= i < ts.len() ==> (#[trigger] ts[i]).name.len() > 0
}

/// A description that is present only when it is not empty.
pub open spec fn nonempty(d: Option<Seq<char>>) -> Option<Seq<char>> {
    match d {
        Some(x) => if x.len() > 0 {
            Some(x)
        } else {
            None
        },
        None => None,
    }
}

/// Owned copy of a description, kept only when it is not empty.
pub fn nonempty_desc(d: Option<&str>) -> (r: Option<String>)
    ensures
        opt_view(r) == nonempty(
            match d {
                Some(x) => Some(x@),
                None => None,
            },
        ),
{
    match d {
        Some(x) => {
            if x.unicode_len() > 0 {
                Some(x.to_string())
            } else {
                None
            }
        },
        None => None,
    }
}

pub fn make_item(name: &str, description: Option<String>) -> (r: TaskItem)
    ensures
        r@ == (Task { name: name@, description: opt_view(description) }),
{
    TaskItem { name: name.to_string(), description }
}

/// Appends `t` to `v`, stating the effect on the catalog's view.
pub fn push_item(v: &mut Vec<TaskItem>, t: TaskItem)
    ensures
        task_views(final(v)@) == task_views(old(v)@).push(t@),
{
    let ghost before = task_views(v@);
    v.push(t);
    assert(task_views(v@) =~= before.push(t@));
}

} // verus!
