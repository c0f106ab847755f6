//! Command-line values and the plans made from them before a task runs.
use vstd::prelude::*;

use crate::detect::{Detection, Runner};
use crate::history::StoredRecord;
use crate::task_args::{required_args_for_task, required_in};
use crate::text::lines_of;
use crate::text::{split_words, str_views, views, words};

verus! {

/// The arguments as the command line gave them.
#[derive(Debug, Clone)]
pub struct RawArgs {
    pub prompt_args: bool,
    pub history: bool,
    pub verbose: bool,
    pub task: Option<String>,
    pub rest: Vec<String>,
}

#[derive(Debug, Clone, PartialEq, Eq)]
pub struct Cli {
    pub prompt_args: bool,
    pub history: bool,
    pub verbose: bool,
    pub task: Option<String>,
    pub passthrough: Vec<String>,
}

/// The arguments after the task, without a leading `--` separator.
pub open spec fn passthrough_of(rest: Seq<Seq<char>>) -> Seq<Seq<char>> {
    if rest.len() > 0 && rest[0] == "--"@ {
        rest.drop_first()
    } else {
        rest
    }
}

fn copy_strings(v: &Vec<String>, from: usize) -> (r: Vec<String>)
    requires
        from <= v@.len(),
    ensures
        views(r@) == views(v@).subrange(from as int, v@.len() as int),
{
    let mut out: Vec<String> = Vec::new();
    let mut k = from;
    while k < v.len()
        invariant
            from <= k <= v@.len(),
            views(out@) == views(v@).subrange(from as int, k as int),
        decreases v.len() - k,
    {
        let ghost before = views(out@);
        let item = v[k].clone();
        out.push(item);
        assert(views(out@) =~= before.push(v@[k as int]@));
        assert(views(out@) =~= views(v@).subrange(from as int, k + 1));
        k = k + 1;
    }
    out
}

/// Drops a `--` that separates the task from its arguments, when it comes first.
pub fn normalize_passthrough(rest: Vec<String>) -> (r: Vec<String>)
    ensures
        views(r@) == passthrough_of(views(rest@)),
{
    if rest.len() > 0 && crate::task_args::str_eq(rest[0].as_str(), "--") {
        copy_strings(&rest, 1)
    } else {
        proof {
            assert(views(rest@).subrange(0, rest@.len() as int) =~= views(rest@));
        }
        rest
    }
}

impl Cli {
    pub fn from_raw(raw: RawArgs) -> (r: Cli)
        ensures
            r.prompt_args == raw.prompt_args,
            r.history == raw.history,
            r.verbose == raw.verbose,
            r.task == raw.task,
            views(r.passthrough@) == passthrough_of(views(raw.rest@)),
    {
        Cli {
            prompt_args: raw.prompt_args,
            history: raw.history,
            verbose: raw.verbose,
            task: raw.task,
            passthrough: normalize_passthrough(raw.rest),
        }
    }
}

/// What to pass and what to ask for before a task runs.
#[derive(Debug, Clone, PartialEq, Eq)]
pub struct PassthroughPlan {
    pub initial_passthrough: Vec<String>,
    pub missing_required: Vec<String>,
    pub prompt_optional_args: bool,
}

/// Arguments on the command line fill required parameters in order; those
/// left over are asked for.
pub fn build_passthrough_plan(
    required: &Vec<String>,
    cli_passthrough: &Vec<String>,
    prompt_optional_args: bool,
) -> (r: PassthroughPlan)
    ensures
        views(r.initial_passthrough@) == views(cli_passthrough@),
        views(r.missing_required@) == views(required@).subrange(
            if cli_passthrough@.len() < required@.len() {
                cli_passthrough@.len() as int
            } else {
                required@.len() as int
            },
            required@.len() as int,
        ),
        r.prompt_optional_args == prompt_optional_args,
{
    let start = if cli_passthrough.len() < required.len() {
        cli_passthrough.len()
    } else {
        required.len()
    };
    let initial = copy_strings(cli_passthrough, 0);
    assert(views(cli_passthrough@).subrange(0, cli_passthrough@.len() as int) =~= views(
        cli_passthrough@,
    ));
    PassthroughPlan {
        initial_passthrough: initial,
        missing_required: copy_strings(required, start),
        prompt_optional_args,
    }
}

/// Arguments typed at a prompt, split at whitespace.
pub fn split_interactive_passthrough(input: &str) -> (r: Vec<String>)
    ensures
        views(r@) == words(input@),
{
    let parts = split_words(input);
    let mut out: Vec<String> = Vec::new();
    let mut k: usize = 0;
    while k < parts.len()
        invariant
            k <= parts@.len(),
            views(out@) == str_views(parts@).subrange(0, k as int),
        decreases parts.len() - k,
    {
        let ghost before = views(out@);
        let item = parts[k].to_string();
        out.push(item);
        assert(views(out@) =~= before.push(parts@[k as int]@));
        assert(views(out@) =~= str_views(parts@).subrange(0, k + 1));
        k = k + 1;
    }
    assert(str_views(parts@).subrange(0, k as int) =~= str_views(parts@));
    out
}

/// How many past commands are offered for rerunning.
pub const HISTORY_SELECT_LIMIT: usize = 200;

/// A past command offered for rerunning.
#[derive(Debug, Clone, PartialEq, Eq)]
pub struct HistoryChoice {
    pub ts: String,
    pub exit_code: i32,
    pub duration_ms: u64,
    pub cwd: String,
    pub cmd: String,
}

pub struct Choice {
    pub ts: Seq<char>,
    pub exit_code: i32,
    pub duration_ms: u64,
    pub cwd: Seq<char>,
    pub cmd: Seq<char>,
}

impl View for HistoryChoice {
    type V = Choice;

    open spec fn view(&self) -> Choice {
        Choice {
            ts: self.ts@,
            exit_code: self.exit_code,
            duration_ms: self.duration_ms,
            cwd: self.cwd@,
            cmd: self.cmd@,
        }
    }
}

pub open spec fn choice_of(s: StoredRecord) -> Choice {
    Choice {
        ts: s.record.ts@,
        exit_code: s.record.exit_code,
        duration_ms: s.record.duration_ms,
        cwd: s.record.cwd@,
        cmd: s.record.cmd@,
    }
}

/// The newest `limit` records, newest first, as choices.
pub fn build_history_choices(records: &Vec<StoredRecord>, limit: usize) -> (r: Vec<HistoryChoice>)
    ensures
        r@.len() == if records@.len() < limit {
            records@.len()
        } else {
            limit as nat
        },
        forall|i: int|
            0 <= i < r@.len() ==> (#[trigger] r@[i])@ == choice_of(records@[records@.len() - 1 - i]),
{
    let n = records.len();
    let mut out: Vec<HistoryChoice> = Vec::new();
    let mut k: usize = 0;
    while k < n && k < limit
        invariant
            n == records@.len(),
            k <= n,
            k <= limit,
            out@.len() == k,
            forall|i: int| 0 <= i < k ==> (#[trigger] out@[i])@ == choice_of(records@[n - 1 - i]),
        decreases n - k,
    {
        let rec = &records[n - 1 - k].record;
        out.push(
            HistoryChoice {
                ts: rec.ts.clone(),
                exit_code: rec.exit_code,
                duration_ms: rec.duration_ms,
                cwd: rec.cwd.clone(),
                cmd: rec.cmd.clone(),
            },
        );
        k = k + 1;
    }
    out
}

/// A timestamp for display: its first 19 characters with the date/time `T`
/// as a space; shorter text as it is.
pub open spec fn display_timestamp(ts: Seq<char>) -> Seq<char> {
    if ts.len() >= 19 {
        ts.subrange(0, 19).map_values(|c: char| if c == 'T' { ' ' } else { c })
    } else {
        ts
    }
}

pub fn format_history_timestamp(ts: &str) -> (r: String)
    ensures
        r@ == display_timestamp(ts@),
{
    if ts.unicode_len() < 19 {
        return ts.to_string();
    }
    let head = ts.substring_char(0, 19);
    let mut out = String::new();
    let mut start: usize = 0;
    let mut i: usize = 0;
    while i < 19
        invariant
            head@.len() == 19,
            start <= i <= 19,
            head@.subrange(0, i as int).map_values(|c: char| if c == 'T' { ' ' } else { c }) == out@
                + head@.subrange(start as int, i as int),
            forall|j: int| start <= j < i ==> head@[j] != 'T',
        decreases 19 - i,
    {
        let c = head.get_char(i);
        if c == 'T' {
            out.append(head.substring_char(start, i));
            out.append(" ");
            proof {
                reveal_strlit(" ");
            }
            start = i + 1;
        }
        assert(head@.subrange(0, i + 1).map_values(|c: char| if c == 'T' { ' ' } else { c })
            =~= head@.subrange(0, i as int).map_values(|c: char| if c == 'T' { ' ' } else { c }).push(
            if c == 'T' {
                ' '
            } else {
                c
            },
        ));
        assert(head@.subrange(start as int, i + 1) =~= if c == 'T' {
            Seq::<char>::empty()
        } else {
            head@.subrange(start as int, i as int).push(c)
        });
        i = i + 1;
    }
    out.append(head.substring_char(start, 19));
    assert(head@.subrange(0, 19) =~= head@);
    out
}

/// Either the arguments are complete, or what is left to ask for.
#[derive(Debug, Clone, PartialEq, Eq)]
pub enum PassthroughStep {
    Ready(Vec<String>),
    Prompt(PassthroughPlan),
}

/// Decides, from the runner file `contents`, whether a task can run with
/// the command line's arguments or needs values asked for first: it can
/// when they cover its required parameters and no optional ones are wanted.
pub fn collect_passthrough(
    detection: &Detection,
    contents: &str,
    task: &str,
    cli_passthrough: &Vec<String>,
    prompt_optional_args: bool,
) -> (r: PassthroughStep)
    ensures
        ({
            let required = if detection.runner == Runner::Justfile {
                match required_in(lines_of(contents@), task@) {
                    Some(w) => w,
                    None => Seq::empty(),
                }
            } else {
                Seq::empty()
            };
            match r {
                PassthroughStep::Ready(v) => views(v@) == views(cli_passthrough@)
                    && cli_passthrough@.len() >= required.len() && !prompt_optional_args,
                PassthroughStep::Prompt(plan) => (cli_passthrough@.len() < required.len()
                    || prompt_optional_args) && views(plan.initial_passthrough@) == views(
                    cli_passthrough@,
                ) && plan.prompt_optional_args == prompt_optional_args && views(
                    plan.missing_required@,
                ) == required.subrange(
                    if cli_passthrough@.len() < required.len() {
                        cli_passthrough@.len() as int
                    } else {
                        required.len() as int
                    },
                    required.len() as int,
                ),
            }
        }),
{
    let required = required_args_for_task(detection, contents, task);
    proof {
        if detection.runner != Runner::Justfile {
            assert(views(required@) =~= Seq::<Seq<char>>::empty());
        }
    }
    let plan = build_passthrough_plan(&required, cli_passthrough, prompt_optional_args);
    assert(views(plan.missing_required@).len() == plan.missing_required@.len());
    assert(views(required@).len() == required@.len());
    if plan.missing_required.len() == 0 && !prompt_optional_args {
        PassthroughStep::Ready(plan.initial_passthrough)
    } else {
        PassthroughStep::Prompt(plan)
    }
}

} // verus!
