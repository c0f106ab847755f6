//! Listing output of `cargo make --list-all-steps`: `name   description` lines.
use vstd::prelude::*;

use crate::tasks::{named, make_item, nonempty, nonempty_desc, push_item, task_views, Task, TaskItem};
use crate::text::{
    ends_with_char, ends_with_char_exec, lemma_skip_word, lines_of, skip_word, skip_word_exec,
    split_lines, starts, starts_with, trim, trim_of, views,
};

verus! {

/// The task that one listing line names, if any: the first word, then the
/// rest of the line after one whitespace character.
pub open spec fn cargo_make_line(l: Seq<char>) -> Option<Task> {
    let line = trim_of(l);
    let k = skip_word(line, 0);
    let name = line.subrange(0, k);
    let desc = if k < line.len() {
        Some(trim_of(line.subrange(k + 1, line.len() as int)))
    } else {
        None
    };
    if line.len() == 0 || ends_with_char(line, ':') || starts(line, "Available"@) || starts(
        line,
        "Tasks"@,
    ) || name.len() == 0 {
        None
    } else {
        Some(Task { name, description: nonempty(desc) })
    }
}

pub open spec fn cargo_make_list(ls: Seq<Seq<char>>) -> Seq<Task>
    decreases ls.len(),
{
    if ls.len() == 0 {
        Seq::empty()
    } else {
        let r = cargo_make_list(ls.drop_last());
        match cargo_make_line(ls.last()) {
            Some(t) => r.push(t),
            None => r,
        }
    }
}

fn parse_line(l: &str) -> (r: Option<TaskItem>)
    ensures
        match (r, cargo_make_line(l@)) {
            (Some(t), Some(u)) => t@ == u,
            (None, None) => true,
            _ => false,
        },
{
    let line = trim(l);
    let n = line.unicode_len();
    if n == 0 || ends_with_char_exec(line, ':') || starts_with(line, "Available") || starts_with(
        line,
        "Tasks",
    ) {
        return None;
    }
    let k = skip_word_exec(line, 0);
    proof {
        lemma_skip_word(line@, 0);
    }
    let name = line.substring_char(0, k);
    if k == 0 {
        return None;
    }
    let desc = if k < n {
        Some(trim(line.substring_char(k + 1, n)))
    } else {
        None
    };
    Some(make_item(name, nonempty_desc(desc)))
}

/// Tasks of a cargo-make listing, in listing order.
pub fn parse(output: &str) -> (r: Vec<TaskItem>)
    ensures
        task_views(r@) == cargo_make_list(lines_of(output@)),
{
    let lines = split_lines(output);
    let ghost ls = views(lines@);
    let mut items: Vec<TaskItem> = Vec::new();
    let mut k: usize = 0;
    while k < lines.len()
        invariant
            k <= lines@.len(),
            ls == views(lines@),
            task_views(items@) == cargo_make_list(ls.subrange(0, k as int)),
        decreases lines.len() - k,
    {
        assert(ls.subrange(0, k + 1).drop_last() =~= ls.subrange(0, k as int));
        if let Some(t) = parse_line(lines[k].as_str()) {
            push_item(&mut items, t);
        }
        k = k + 1;
    }
    assert(ls.subrange(0, k as int) =~= ls);
    items
}

/// Every listed task has a name.
pub proof fn lemma_cargo_make_list_named(ls: Seq<Seq<char>>)
    ensures
        named(cargo_make_list(ls)),
    decreases ls.len(),
{
    if ls.len() > 0 {
        lemma_cargo_make_list_named(ls.drop_last());
    }
}

} // verus!
