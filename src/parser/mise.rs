//! The mise dialect: the task array of `mise tasks --json`, decoded by the
//! caller; a document that does not decode is `None`.
use vstd::prelude::*;

use crate::parser::mask::{clean_description, cleaned};
use crate::tasks::{opt_view, push_item, task_views, Task, TaskItem};

verus! {

#[derive(Debug, Clone)]
pub struct MiseTask {
    pub name: String,
    pub description: Option<String>,
}

pub open spec fn mise_task(t: MiseTask) -> Task {
    Task { name: t.name@, description: cleaned(opt_view(t.description)) }
}

/// The tasks of a mise task list, in order; a task without a name is no
/// task and is left out.
pub open spec fn mise_list(ts: Seq<MiseTask>) -> Seq<Task>
    decreases ts.len(),
{
    if ts.len() == 0 {
        Seq::empty()
    } else if ts.last().name@.len() > 0 {
        mise_list(ts.drop_last()).push(mise_task(ts.last()))
    } else {
        mise_list(ts.drop_last())
    }
}

pub proof fn lemma_mise_names(ts: Seq<MiseTask>)
    ensures
        forall|i: int| 0 <= i < mise_list(ts).len() ==> (#[trigger] mise_list(ts)[i]).name.len() > 0,
    decreases ts.len(),
{
    if ts.len() > 0 {
        lemma_mise_names(ts.drop_last());
    }
}

/// Tasks of a mise task list, in order, with descriptions trimmed; every
/// task has a name.
pub fn parse(tasks: Option<&Vec<MiseTask>>) -> (r: Vec<TaskItem>)
    ensures
        task_views(r@) == match tasks {
            Some(ts) => mise_list(ts@),
            None => Seq::empty(),
        },
        forall|i: int| 0 <= i < r@.len() ==> (#[trigger] r@[i]).name@.len() > 0,
{
    let mut items: Vec<TaskItem> = Vec::new();
    assert(task_views(items@) =~= Seq::<Task>::empty());
    match tasks {
        None => items,
        Some(ts) => {
            let mut k: usize = 0;
            while k < ts.len()
                invariant
                    k <= ts@.len(),
                    task_views(items@) == mise_list(ts@.subrange(0, k as int)),
                decreases ts.len() - k,
            {
                assert(ts@.subrange(0, k + 1).drop_last() =~= ts@.subrange(0, k as int));
                let t = &ts[k];
                if t.name.unicode_len() > 0 {
                    push_item(
                        &mut items,
                        TaskItem { name: t.name.clone(), description: clean_description(&t.description) },
                    );
                }
                k = k + 1;
            }
            assert(ts@.subrange(0, k as int) =~= ts@);
            proof {
                lemma_mise_names(ts@);
                assert forall|i: int| 0 <= i < items@.len() implies (#[trigger] items@[i]).name@.len() > 0 by {
                    assert(task_views(items@)[i] == mise_list(ts@)[i]);
                }
            }
            items
        },
    }
}

} // verus!
