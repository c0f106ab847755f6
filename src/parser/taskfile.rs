//! Listing output of `task --list-all`: `* name: description` lines.
use vstd::prelude::*;

use crate::tasks::{named, make_item, nonempty, nonempty_desc, push_item, task_views, Task, TaskItem};
use crate::text::{
    split_lines, split_once, split_once_of, starts, starts_with, trim, trim_of, trim_start,
    trim_start_of, lines_of, views,
};

verus! {

/// The line without a leading `* ` or `- ` bullet.
pub open spec fn unbullet(line: Seq<char>) -> Seq<char> {
    if starts(line, "* "@) || starts(line, "- "@) {
        line.subrange(2, line.len() as int)
    } else {
        line
    }
}

/// The task that one listing line names, if any.
pub open spec fn task_line(l: Seq<char>) -> Option<Task> {
    let line = trim_start_of(l);
    let body = unbullet(line);
    let (name, desc) = match split_once_of(body, ':') {
        Some((a, b)) => (trim_of(a), Some(trim_of(b))),
        None => (trim_of(body), None),
    };
    if line.len() == 0 || starts(line, "task:"@) || starts(line, "Available"@) || name.len() == 0 {
        None
    } else {
        Some(Task { name, description: nonempty(desc) })
    }
}

pub open spec fn task_list(ls: Seq<Seq<char>>) -> Seq<Task>
    decreases ls.len(),
{
    if ls.len() == 0 {
        Seq::empty()
    } else {
        let r = task_list(ls.drop_last());
        match task_line(ls.last()) {
            Some(t) => r.push(t),
            None => r,
        }
    }
}

fn parse_line(l: &str) -> (r: Option<TaskItem>)
    ensures
        match (r, task_line(l@)) {
            (Some(t), Some(u)) => t@ == u,
            (None, None) => true,
            _ => false,
        },
{
    let line = trim_start(l);
    if line.unicode_len() == 0 || starts_with(line, "task:") || starts_with(line, "Available") {
        return None;
    }
    proof {
        reveal_strlit("* ");
        reveal_strlit("- ");
    }
    let body = if starts_with(line, "* ") || starts_with(line, "- ") {
        line.substring_char(2, line.unicode_len())
    } else {
        line
    };
    let (name, desc) = match split_once(body, ':') {
        Some((a, b)) => (trim(a), Some(trim(b))),
        None => (trim(body), None),
    };
    if name.unicode_len() == 0 {
        return None;
    }
    Some(make_item(name, nonempty_desc(desc)))
}

/// Tasks of a `task --list-all` listing, in listing order.
pub fn parse(output: &str) -> (r: Vec<TaskItem>)
    ensures
        task_views(r@) == task_list(lines_of(output@)),
{
    let lines = split_lines(output);
    let ghost ls = views(lines@);
    let mut items: Vec<TaskItem> = Vec::new();
    let mut k: usize = 0;
    while k < lines.len()
        invariant
            k <= lines@.len(),
            ls == views(lines@),
            task_views(items@) == task_list(ls.subrange(0, k as int)),
        decreases lines.len() - k,
    {
        assert(ls.subrange(0, k + 1).drop_last() =~= ls.subrange(0, k as int));
        if let Some(t) = parse_line(lines[k].as_str()) {
            push_item(&mut items, t);
        }
        k = k + 1;
    }
    assert(ls.subrange(0, k as int) =~= ls);
    items
}

/// Every listed task has a name.
pub proof fn lemma_task_list_named(ls: Seq<Seq<char>>)
    ensures
        named(task_list(ls)),
    decreases ls.len(),
{
    if ls.len() > 0 {
        lemma_task_list_named(ls.drop_last());
    }
}

} // verus!
