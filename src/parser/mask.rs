//! The mask dialect: the command tree of `mask --introspect`. Decoding the
//! JSON is left to the caller; a document that does not decode is `None`.
use vstd::prelude::*;

use crate::tasks::{named, nonempty, nonempty_desc, opt_view, push_item, task_views, Task, TaskItem};
use crate::text::{trim, trim_of};

verus! {

/// One command of a maskfile: whether it has a script of its own, and its
/// subcommands.
#[derive(Debug)]
pub struct MaskCommand {
    pub name: String,
    pub description: Option<String>,
    pub has_script: bool,
    pub subcommands: Vec<MaskCommand>,
}

/// A description trimmed, and dropped when nothing is left.
pub open spec fn cleaned(d: Option<Seq<char>>) -> Option<Seq<char>> {
    match d {
        Some(x) => nonempty(Some(trim_of(x))),
        None => None,
    }
}

/// A subcommand's name is its parent's name, a space, and its own name.
pub open spec fn full_name(prefix: Seq<char>, name: Seq<char>) -> Seq<char> {
    if prefix.len() == 0 {
        name
    } else {
        prefix + seq![' '] + name
    }
}

/// Tasks of a command and its subcommands, depth first, parents first; only
/// commands with a script and a name are tasks.
pub open spec fn command_tasks(c: MaskCommand, prefix: Seq<char>) -> Seq<Task>
    decreases c, 1int,
{
    let name = full_name(prefix, c.name@);
    let own = if c.has_script && c.name@.len() > 0 {
        seq![Task { name, description: cleaned(opt_view(c.description)) }]
    } else {
        Seq::empty()
    };
    own + commands_tasks(c, c.subcommands@.len() as int, name)
}

/// Tasks of the first `n` subcommands of `c`.
pub open spec fn commands_tasks(c: MaskCommand, n: int, prefix: Seq<char>) -> Seq<Task>
    decreases c, 0int, n,
{
    if n <= 0 || n > c.subcommands@.len() {
        Seq::empty()
    } else {
        commands_tasks(c, n - 1, prefix) + command_tasks(c.subcommands@[n - 1], prefix)
    }
}

/// Tasks of a list of top-level commands.
pub open spec fn top_tasks(cs: Seq<MaskCommand>) -> Seq<Task>
    decreases cs.len(),
{
    if cs.len() == 0 {
        Seq::empty()
    } else {
        top_tasks(cs.drop_last()) + command_tasks(cs.last(), Seq::empty())
    }
}

/// A description trimmed, kept only when text is left.
pub fn clean_description(desc: &Option<String>) -> (r: Option<String>)
    ensures
        opt_view(r) == cleaned(opt_view(*desc)),
{
    match desc {
        Some(d) => nonempty_desc(Some(trim(d.as_str()))),
        None => None,
    }
}

fn join_name(prefix: &str, name: &str) -> (r: String)
    ensures
        r@ == full_name(prefix@, name@),
{
    if prefix.unicode_len() == 0 {
        name.to_string()
    } else {
        let mut s = prefix.to_string();
        s.append(" ");
        proof {
            reveal_strlit(" ");
        }
        s.append(name);
        assert(s@ =~= prefix@ + seq![' '] + name@);
        s
    }
}

/// Appends the tasks of `command` and its subcommands to `items`.
pub fn collect_tasks(items: &mut Vec<TaskItem>, command: &MaskCommand, prefix: &str)
    ensures
        task_views(final(items)@) == task_views(old(items)@) + command_tasks(*command, prefix@),
        named(task_views(old(items)@)) ==> named(task_views(final(items)@)),
    decreases command, 1int,
{
    let ghost start = task_views(items@);
    let name = join_name(prefix, command.name.as_str());
    if command.has_script && command.name.unicode_len() > 0 {
        push_item(items, TaskItem { name: name.clone(), description: clean_description(&command.description) });
    }
    let ghost own = task_views(items@);
    assert(named(start) ==> named(own)) by {
        if named(start) && command.has_script && command.name@.len() > 0 {
            assert forall|i: int| 0 <= i < own.len() implies (#[trigger] own[i]).name.len() > 0 by {
                if i < start.len() {
                    assert(own[i] == start[i]);
                } else {
                    assert(own[i].name == name@);
                }
            }
        }
    }
    assert(own =~= start + if command.has_script && command.name@.len() > 0 {
        seq![Task { name: name@, description: cleaned(opt_view(command.description)) }]
    } else {
        Seq::<Task>::empty()
    });
    let mut k: usize = 0;
    while k < command.subcommands.len()
        invariant
            k <= command.subcommands@.len(),
            task_views(items@) == own + commands_tasks(*command, k as int, name@),
            named(start) ==> named(task_views(items@)),
        decreases command.subcommands.len() - k,
    {
        proof {
            assert(decreases_to!(*command => command.subcommands));
        }
        collect_tasks(items, &command.subcommands[k], name.as_str());
        assert(task_views(items@) =~= own + commands_tasks(*command, k + 1, name@));
        k = k + 1;
    }
}

/// Tasks of a maskfile's command tree; nothing when it did not decode.
pub fn parse(commands: Option<&Vec<MaskCommand>>) -> (r: Vec<TaskItem>)
    ensures
        task_views(r@) == match commands {
            Some(cs) => top_tasks(cs@),
            None => Seq::empty(),
        },
        named(task_views(r@)),
{
    let mut items: Vec<TaskItem> = Vec::new();
    assert(task_views(items@) =~= Seq::<Task>::empty());
    match commands {
        None => items,
        Some(cs) => {
            let mut k: usize = 0;
            while k < cs.len()
                invariant
                    k <= cs@.len(),
                    task_views(items@) == top_tasks(cs@.subrange(0, k as int)),
                    named(task_views(items@)),
                decreases cs.len() - k,
            {
                assert(cs@.subrange(0, k + 1).drop_last() =~= cs@.subrange(0, k as int));
                collect_tasks(&mut items, &cs[k], "");
                proof {
                    reveal_strlit("");
                }
                k = k + 1;
            }
            assert(cs@.subrange(0, k as int) =~= cs@);
            items
        },
    }
}

} // verus!
