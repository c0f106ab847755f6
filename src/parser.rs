//! Task catalogs from each runner's listing output.
use vstd::prelude::*;

pub mod cargo_make;
pub mod justfile;
pub mod makefile;
pub mod mask;
pub mod mise;
pub mod taskfile;

use crate::detect::Runner;
use crate::tasks::{named, task_views, Task, TaskItem};
use crate::text::{lines_of, trim, trim_of};
use mask::MaskCommand;
use mise::MiseTask;

verus! {

/// What a runner's listing command printed: text for the line-oriented
/// dialects; for the JSON dialects the decoded document, or `None` when it
/// did not decode.
#[derive(Debug)]
pub enum Listing {
    Text(String),
    Mask(Option<Vec<MaskCommand>>),
    Mise(Option<Vec<MiseTask>>),
}

/// The catalog a listing yields for a runner. A listing of another shape
/// than the runner's dialect yields nothing.
pub open spec fn catalog(runner: Runner, listing: Listing) -> Seq<Task> {
    match (runner, listing) {
        (Runner::Justfile, Listing::Text(s)) => justfile::just_list(lines_of(s@)),
        (Runner::Taskfile, Listing::Text(s)) => taskfile::task_list(lines_of(s@)),
        (Runner::CargoMake, Listing::Text(s)) => cargo_make::cargo_make_list(lines_of(s@)),
        (Runner::Makefile, Listing::Text(s)) => makefile::make_catalog(s@, None),
        (Runner::Maskfile, Listing::Mask(Some(cs))) => mask::top_tasks(cs@),
        (Runner::Mise, Listing::Mise(Some(ts))) => mise::mise_list(ts@),
        _ => Seq::empty(),
    }
}

/// Returns parsed tasks from the output of the given runner's list command.
pub fn parse_tasks(runner: Runner, listing: &Listing) -> (r: Vec<TaskItem>)
    ensures
        task_views(r@) == catalog(runner, *listing),
        named(task_views(r@)),
{
    let r = match (runner, listing) {
        (Runner::Justfile, Listing::Text(s)) => justfile::parse(s.as_str()),
        (Runner::Taskfile, Listing::Text(s)) => taskfile::parse(s.as_str()),
        (Runner::CargoMake, Listing::Text(s)) => cargo_make::parse(s.as_str()),
        (Runner::Makefile, Listing::Text(s)) => makefile::parse(s.as_str()),
        (Runner::Maskfile, Listing::Mask(Some(cs))) => mask::parse(Some(cs)),
        (Runner::Mise, Listing::Mise(Some(ts))) => mise::parse(Some(ts)),
        _ => Vec::new(),
    };
    proof {
        match (runner, listing) {
            (Runner::Justfile, Listing::Text(s)) => justfile::lemma_just_list_named(lines_of(s@)),
            (Runner::Taskfile, Listing::Text(s)) => taskfile::lemma_task_list_named(lines_of(s@)),
            (Runner::CargoMake, Listing::Text(s)) => cargo_make::lemma_cargo_make_list_named(lines_of(s@)),
            (Runner::Makefile, Listing::Text(s)) => makefile::lemma_make_catalog_named(s@, None),
            (Runner::Mise, Listing::Mise(Some(ts))) => mise::lemma_mise_names(ts@),
            _ => {},
        }
        if task_views(r@).len() == 0 {
            assert(task_views(r@) =~= Seq::<Task>::empty());
        }
    }
    r
}

/// What listing does next after `tried` of a runner's `variants` listing
/// commands ran.
#[derive(Debug, Clone, Copy, PartialEq, Eq, Structural)]
pub enum ListStep {
    /// The last command's output is the listing to parse.
    Parse,
    /// Run the listing command with this index.
    Try(usize),
    /// Every command failed; report the last exit status.
    Fail,
}

/// The step after `tried` listing commands, the last of which exited with
/// `last_status` and printed `last_stdout`: a successful command's output is
/// parsed, and so is make's when it printed anything (make exits non-zero
/// when asked only to print its database); otherwise the next command is
/// tried, until none is left.
pub fn list_step(runner: Runner, tried: usize, variants: usize, last_status: i32, last_stdout: &str) -> (r: ListStep)
    ensures
        ({
            let usable = tried > 0 && (last_status == 0 || (runner == Runner::Makefile && trim_of(
                last_stdout@,
            ).len() > 0));
            &&& usable ==> r == ListStep::Parse
            &&& !usable && tried < variants ==> r == ListStep::Try(tried)
            &&& !usable && tried >= variants ==> r == ListStep::Fail
        }),
{
    let printed = trim(last_stdout).unicode_len() > 0;
    let make = match runner {
        Runner::Makefile => true,
        _ => false,
    };
    if tried > 0 && (last_status == 0 || (make && printed)) {
        ListStep::Parse
    } else if tried < variants {
        ListStep::Try(tried)
    } else {
        ListStep::Fail
    }
}

} // verus!
