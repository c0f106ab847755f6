//! The task runners this library knows, and how a directory picks one.
use vstd::prelude::*;

use crate::text::{join, join_path, listed, listed_exec};

verus! {

#[derive(Debug, Copy, Clone, PartialEq, Eq, Hash, Structural)]
pub enum Runner {
    Justfile,
    Taskfile,
    Maskfile,
    Mise,
    CargoMake,
    Makefile,
}

/// A runner and the path of the file that selected it.
#[derive(Debug, Clone, PartialEq, Eq)]
pub struct Detection {
    pub runner: Runner,
    pub runner_file: String,
}

/// The program that runs a runner's tasks.
pub open spec fn command_of(runner: Runner) -> Seq<char> {
    match runner {
        Runner::Justfile => seq!['j', 'u', 's', 't'],
        Runner::Taskfile => seq!['t', 'a', 's', 'k'],
        Runner::Maskfile => seq!['m', 'a', 's', 'k'],
        Runner::Mise => seq!['m', 'i', 's', 'e'],
        Runner::CargoMake => seq!['c', 'a', 'r', 'g', 'o'],
        Runner::Makefile => seq!['m', 'a', 'k', 'e'],
    }
}

/// Returns the command name for the given runner (cargo-make runs as a
/// subcommand of cargo).
pub fn runner_command(runner: Runner) -> (r: &'static str)
    ensures
        r@ == command_of(runner),
{
    let r = match runner {
        Runner::Justfile => "just",
        Runner::Taskfile => "task",
        Runner::Maskfile => "mask",
        Runner::Mise => "mise",
        Runner::CargoMake => "cargo",
        Runner::Makefile => "make",
    };
    proof {
        reveal_strlit("just");
        reveal_strlit("task");
        reveal_strlit("mask");
        reveal_strlit("mise");
        reveal_strlit("cargo");
        reveal_strlit("make");
    }
    assert(r@ =~= command_of(runner));
    r
}

/// The number of runner files looked for.
pub const CANDIDATES: usize = 15;

/// The file names that select a runner, in priority order.
pub open spec fn candidate_name(i: int) -> Seq<char> {
    if i == 0 {
        "Justfile"@
    } else if i == 1 {
        "justfile"@
    } else if i == 2 {
        "Taskfile.yml"@
    } else if i == 3 {
        "taskfile.yml"@
    } else if i == 4 {
        "Taskfile.yaml"@
    } else if i == 5 {
        "taskfile.yaml"@
    } else if i == 6 {
        "Taskfile.dist.yml"@
    } else if i == 7 {
        "taskfile.dist.yml"@
    } else if i == 8 {
        "Taskfile.dist.yaml"@
    } else if i == 9 {
        "taskfile.dist.yaml"@
    } else if i == 10 {
        "maskfile.md"@
    } else if i == 11 {
        "Maskfile.md"@
    } else if i == 12 {
        "mise.toml"@
    } else if i == 13 {
        "Makefile.toml"@
    } else    {
        "Makefile"@
    }
}

pub open spec fn candidate_runner(i: int) -> Runner {
    if i == 0 {
        Runner::Justfile
    } else if i == 1 {
        Runner::Justfile
    } else if i == 2 {
        Runner::Taskfile
    } else if i == 3 {
        Runner::Taskfile
    } else if i == 4 {
        Runner::Taskfile
    } else if i == 5 {
        Runner::Taskfile
    } else if i == 6 {
        Runner::Taskfile
    } else if i == 7 {
        Runner::Taskfile
    } else if i == 8 {
        Runner::Taskfile
    } else if i == 9 {
        Runner::Taskfile
    } else if i == 10 {
        Runner::Maskfile
    } else if i == 11 {
        Runner::Maskfile
    } else if i == 12 {
        Runner::Mise
    } else if i == 13 {
        Runner::CargoMake
    } else    {
        Runner::Makefile
    }
}

/// Candidate `i`: a file name and the runner it selects.
pub fn candidate(i: usize) -> (r: (&'static str, Runner))
    requires
        i < CANDIDATES,
    ensures
        r.0@ == candidate_name(i as int),
        r.1 == candidate_runner(i as int),
{
    match i {
        0 => ("Justfile", Runner::Justfile),
        1 => ("justfile", Runner::Justfile),
        2 => ("Taskfile.yml", Runner::Taskfile),
        3 => ("taskfile.yml", Runner::Taskfile),
        4 => ("Taskfile.yaml", Runner::Taskfile),
        5 => ("taskfile.yaml", Runner::Taskfile),
        6 => ("Taskfile.dist.yml", Runner::Taskfile),
        7 => ("taskfile.dist.yml", Runner::Taskfile),
        8 => ("Taskfile.dist.yaml", Runner::Taskfile),
        9 => ("taskfile.dist.yaml", Runner::Taskfile),
        10 => ("maskfile.md", Runner::Maskfile),
        11 => ("Maskfile.md", Runner::Maskfile),
        12 => ("mise.toml", Runner::Mise),
        13 => ("Makefile.toml", Runner::CargoMake),
        _ => ("Makefile", Runner::Makefile),
    }
}

/// No runner file was found in the directory.
#[derive(Debug, Clone, PartialEq, Eq)]
pub struct NoRunnerFound {
    pub cwd: String,
}

/// First candidate at or after `i` whose file is present (or `CANDIDATES`).
pub open spec fn first_present(files: Seq<String>, i: int) -> int
    decreases CANDIDATES - i,
{
    if i >= CANDIDATES {
        CANDIDATES as int
    } else if listed(files, candidate_name(i)) {
        i
    } else {
        first_present(files, i + 1)
    }
}

/// Detects the task runner of directory `dir_path`, given the names of the
/// files it holds: the first candidate, in priority order, that is present.
pub fn detect_runner(dir_path: &str, files: &Vec<String>) -> (r: Result<Detection, NoRunnerFound>)
    ensures
        match r {
            Ok(d) => {
                let k = first_present(files@, 0);
                k < CANDIDATES && d.runner == candidate_runner(k) && d.runner_file@ == join_path(
                    dir_path@,
                    candidate_name(k),
                )
            },
            Err(e) => first_present(files@, 0) >= CANDIDATES && e.cwd@ == dir_path@,
        },
{
    let mut i: usize = 0;
    while i < CANDIDATES
        invariant
            i <= CANDIDATES,
            first_present(files@, 0) == first_present(files@, i as int),
        decreases CANDIDATES - i,
    {
        let (name, runner) = candidate(i);
        if listed_exec(files, name) {
            return Ok(Detection { runner, runner_file: join(dir_path, name) });
        }
        i = i + 1;
    }
    Err(NoRunnerFound { cwd: dir_path.to_string() })
}

/// Runners detected among the first `n` candidates: one per runner, at its
/// first present file.
pub open spec fn detections_upto(files: Seq<String>, dir: Seq<char>, n: int) -> Seq<(Runner, Seq<char>)>
    decreases n,
{
    if n <= 0 {
        Seq::empty()
    } else {
        let d = detections_upto(files, dir, n - 1);
        if listed(files, candidate_name(n - 1)) && !(exists|j: int|
            0 <= j < d.len() && (#[trigger] d[j]).0 == candidate_runner(n - 1)) {
            d.push((candidate_runner(n - 1), join_path(dir, candidate_name(n - 1))))
        } else {
            d
        }
    }
}

pub open spec fn detection_views(v: Seq<Detection>) -> Seq<(Runner, Seq<char>)> {
    v.map_values(|d: Detection| (d.runner, d.runner_file@))
}

/// Detects every runner of directory `dir_path`, in priority order, each at
/// its first present file.
pub fn detect_runners(dir_path: &str, files: &Vec<String>) -> (r: Result<Vec<Detection>, NoRunnerFound>)
    ensures
        match r {
            Ok(ds) => detection_views(ds@) == detections_upto(files@, dir_path@, CANDIDATES as int)
                && ds@.len() > 0,
            Err(e) => detections_upto(files@, dir_path@, CANDIDATES as int).len() == 0 && e.cwd@
                == dir_path@,
        },
{
    let mut found: Vec<Detection> = Vec::new();
    let mut i: usize = 0;
    assert(detection_views(found@) =~= Seq::<(Runner, Seq<char>)>::empty());
    while i < CANDIDATES
        invariant
            i <= CANDIDATES,
            detection_views(found@) == detections_upto(files@, dir_path@, i as int),
        decreases CANDIDATES - i,
    {
        let (name, runner) = candidate(i);
        let ghost d = detections_upto(files@, dir_path@, i as int);
        let mut seen = false;
        let mut j: usize = 0;
        while j < found.len()
            invariant
                j <= found@.len(),
                d == detection_views(found@),
                seen == (exists|m: int| 0 <= m < j && (#[trigger] d[m]).0 == runner),
            decreases found.len() - j,
        {
            assert(d[j as int].0 == found@[j as int].runner);
            if found[j].runner == runner {
                seen = true;
            }
            j = j + 1;
        }
        if !seen && listed_exec(files, name) {
            let det = Detection { runner, runner_file: join(dir_path, name) };
            found.push(det);
            assert(detection_views(found@) =~= d.push((runner, det.runner_file@)));
        }
        i = i + 1;
    }
    if found.len() == 0 {
        Err(NoRunnerFound { cwd: dir_path.to_string() })
    } else {
        Ok(found)
    }
}

/// The justfile of directory `dir`, given the names of the files it holds.
pub fn find_justfile(dir: &str, files: &Vec<String>) -> (r: Option<String>)
    ensures
        match r {
            Some(p) => (listed(files@, "Justfile"@) && p@ == join_path(dir@, "Justfile"@)) || (
            !listed(files@, "Justfile"@) && listed(files@, "justfile"@) && p@ == join_path(
                dir@,
                "justfile"@,
            )),
            None => !listed(files@, "Justfile"@) && !listed(files@, "justfile"@),
        },
{
    if listed_exec(files, "Justfile") {
        Some(join(dir, "Justfile"))
    } else if listed_exec(files, "justfile") {
        Some(join(dir, "justfile"))
    } else {
        None
    }
}

} // verus!
