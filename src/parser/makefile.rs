//! The make dialect: the database dump of `make -qp` (or a plain rule
//! listing), with descriptions from comments in the makefile's source.
use vstd::prelude::*;

use crate::task_args::str_eq;
use crate::tasks::{named, make_item, nonempty, nonempty_desc, opt_view, task_views, Task, TaskItem};
use crate::text::{
    ends_with_char, ends_with_char_exec, has_char, has_char_exec, lines_of, split_lines,
    split_once, split_once_of, split_words, starts, starts_with, str_views, trim, trim_end,
    trim_end_of, trim_of, trim_start, trim_start_char, trim_start_char_of, trim_start_of, views,
    words,
};

verus! {

/// A name that can be a task: not special (leading `.`), not a pattern or
/// variable (`%`, `$`, `=`), and not a makefile's own name.
pub open spec fn target_name(n: Seq<char>) -> bool {
    n.len() > 0 && n[0] != '.' && !has_char(n, '%') && !has_char(n, '$') && !has_char(n, '=')
        && n != "Makefile"@ && n != "makefile"@ && n != "GNUmakefile"@
}

/// The text of a comment line, unless it is empty or one of make's own
/// annotations.
pub open spec fn make_comment(t: Seq<char>) -> Option<Seq<char>> {
    let c = trim_of(trim_start_char_of(t, '#'));
    if c.len() == 0 || starts(c, "Files"@) || starts(c, "Finished"@) || starts(c, "Not a target"@)
        || ends_with_char(c, ':') {
        None
    } else {
        Some(c)
    }
}

/// A `#` comment after the rule's colon, if it holds text.
pub open spec fn inline_desc(t: Seq<char>) -> Option<Seq<char>> {
    match split_once_of(t, ':') {
        Some((_, rest)) => match split_once_of(rest, '#') {
            Some((_, c)) => nonempty(Some(trim_of(c))),
            None => None,
        },
        None => None,
    }
}

pub open spec fn task_pos(ts: Seq<Task>, n: Seq<char>, i: int) -> int
    decreases ts.len() - i,
{
    if i >= ts.len() {
        ts.len() as int
    } else if ts[i].name == n {
        i
    } else {
        task_pos(ts, n, i + 1)
    }
}

/// `ts` with a task named `n` appended unless one is listed already.
pub open spec fn add_name(ts: Seq<Task>, n: Seq<char>) -> Seq<Task> {
    if task_pos(ts, n, 0) < ts.len() {
        ts
    } else {
        ts.push(Task { name: n, description: None })
    }
}

/// `ts` with the task named `n` described by `d`, appended if not listed.
pub open spec fn set_desc(ts: Seq<Task>, n: Seq<char>, d: Seq<char>) -> Seq<Task> {
    let p = task_pos(ts, n, 0);
    if p < ts.len() {
        ts.update(p, Task { name: n, description: Some(d) })
    } else {
        ts.push(Task { name: n, description: Some(d) })
    }
}

pub open spec fn add_names(ts: Seq<Task>, ns: Seq<Seq<char>>) -> Seq<Task>
    decreases ns.len(),
{
    if ns.len() == 0 {
        ts
    } else {
        add_name(add_names(ts, ns.drop_last()), ns.last())
    }
}

/// What a scan of the dump has gathered so far.
pub struct MakeScan {
    pub in_files: bool,
    pub done: bool,
    pub pending: Option<Seq<char>>,
    pub tasks: Seq<Task>,
}

/// One line's effect on the scan of the dump.
pub open spec fn make_step(st: MakeScan, raw: Seq<char>) -> MakeScan {
    let line = trim_end_of(raw);
    let t = trim_start_of(line);
    if st.done {
        st
    } else if line.len() == 0 {
        MakeScan { pending: None, ..st }
    } else if starts(t, "# Files"@) {
        MakeScan { in_files: true, pending: None, ..st }
    } else if starts(t, "# Finished"@) {
        MakeScan { done: true, ..st }
    } else if starts(t, ".PHONY:"@) {
        MakeScan {
            tasks: add_names(st.tasks, target_names(words(t.subrange(7, t.len() as int)))),
            pending: None,
            ..st
        }
    } else if !st.in_files {
        MakeScan { pending: None, ..st }
    } else if t.len() > 0 && t[0] == '#' {
        MakeScan { pending: make_comment(t), ..st }
    } else if line[0] == '\t' || line[0] == ' ' {
        MakeScan { pending: None, ..st }
    } else {
        match split_once_of(t, ':') {
            None => st,
            Some((target, _)) => {
                let name = trim_of(target);
                let desc = match inline_desc(t) {
                    Some(d) => Some(d),
                    None => st.pending,
                };
                if !target_name(name) {
                    MakeScan { pending: None, ..st }
                } else {
                    match desc {
                        Some(d) => MakeScan {
                            tasks: set_desc(st.tasks, name, d),
                            pending: None,
                            ..st
                        },
                        None => MakeScan { tasks: add_name(st.tasks, name), pending: None, ..st },
                    }
                }
            },
        }
    }
}

pub open spec fn make_scan(ls: Seq<Seq<char>>, start_in_files: bool) -> MakeScan
    decreases ls.len(),
{
    if ls.len() == 0 {
        MakeScan { in_files: start_in_files, done: false, pending: None, tasks: Seq::empty() }
    } else {
        make_step(make_scan(ls.drop_last(), start_in_files), ls.last())
    }
}

/// Whether some line opens the dump's files section.
pub open spec fn has_files_marker(ls: Seq<Seq<char>>) -> bool {
    exists|i: int| 0 <= i < ls.len() && starts(trim_start_of(#[trigger] ls[i]), "# Files"@)
}

/// Descriptions gathered from a makefile's source: (target, description)
/// pairs; a later pair for the same target overrides an earlier one.
pub struct DescScan {
    pub pairs: Seq<(Seq<char>, Seq<char>)>,
    pub pending: Option<Seq<char>>,
}

pub open spec fn target_names(ns: Seq<Seq<char>>) -> Seq<Seq<char>>
    decreases ns.len(),
{
    if ns.len() == 0 {
        Seq::empty()
    } else if target_name(ns.last()) {
        target_names(ns.drop_last()).push(ns.last())
    } else {
        target_names(ns.drop_last())
    }
}

pub open spec fn pair_all(ns: Seq<Seq<char>>, d: Seq<char>) -> Seq<(Seq<char>, Seq<char>)> {
    ns.map_values(|n: Seq<char>| (n, d))
}

/// One source line's effect on the description scan.
pub open spec fn desc_step(st: DescScan, raw: Seq<char>) -> DescScan {
    let line = trim_end_of(raw);
    let t = trim_start_of(line);
    if line.len() == 0 {
        DescScan { pending: None, ..st }
    } else if t.len() > 0 && t[0] == '#' {
        DescScan { pending: make_comment(t), ..st }
    } else if line[0] == '\t' || line[0] == ' ' {
        DescScan { pending: None, ..st }
    } else {
        match split_once_of(t, ':') {
            None => DescScan { pending: None, ..st },
            Some((target, rest)) => {
                let names = target_names(words(target));
                let desc = match inline_desc(t) {
                    Some(d) => Some(d),
                    None => st.pending,
                };
                if starts(trim_start_of(rest), "="@) || names.len() == 0 {
                    DescScan { pending: None, ..st }
                } else {
                    match desc {
                        Some(d) => DescScan { pairs: st.pairs + pair_all(names, d), pending: None },
                        None => DescScan { pending: None, ..st },
                    }
                }
            },
        }
    }
}

pub open spec fn desc_scan(ls: Seq<Seq<char>>) -> DescScan
    decreases ls.len(),
{
    if ls.len() == 0 {
        DescScan { pairs: Seq::empty(), pending: None }
    } else {
        desc_step(desc_scan(ls.drop_last()), ls.last())
    }
}

/// The description of `n` among `pairs`: the last pair for it.
pub open spec fn lookup(pairs: Seq<(Seq<char>, Seq<char>)>, n: Seq<char>) -> Option<Seq<char>>
    decreases pairs.len(),
{
    if pairs.len() == 0 {
        None
    } else if pairs.last().0 == n {
        Some(pairs.last().1)
    } else {
        lookup(pairs.drop_last(), n)
    }
}

/// Tasks without a description take the one the source gives them.
pub open spec fn backfill(ts: Seq<Task>, pairs: Seq<(Seq<char>, Seq<char>)>) -> Seq<Task> {
    ts.map_values(
        |t: Task|
            if t.description is None {
                Task { name: t.name, description: lookup(pairs, t.name) }
            } else {
                t
            },
    )
}

/// The catalog of a make listing, with descriptions backfilled from the
/// makefile's source when it is given.
pub open spec fn make_catalog(output: Seq<char>, source: Option<Seq<char>>) -> Seq<Task> {
    let ls = lines_of(output);
    let tasks = make_scan(ls, !has_files_marker(ls)).tasks;
    match source {
        Some(src) => backfill(tasks, desc_scan(lines_of(src)).pairs),
        None => tasks,
    }
}

/// Whether `name` can be a task rather than a special, pattern or variable target.
pub fn is_make_target_name(name: &str) -> (r: bool)
    ensures
        r == target_name(name@),
{
    proof {
        reveal_strlit("Makefile");
        reveal_strlit("makefile");
        reveal_strlit("GNUmakefile");
    }
    name.unicode_len() > 0 && name.get_char(0) != '.' && !has_char_exec(name, '%')
        && !has_char_exec(name, '$') && !has_char_exec(name, '=') && !str_eq(name, "Makefile")
        && !str_eq(name, "makefile") && !str_eq(name, "GNUmakefile")
}

/// The text of a comment line, unless empty or one of make's annotations.
pub fn parse_comment_line(line: &str) -> (r: Option<String>)
    ensures
        opt_view(r) == make_comment(line@),
{
    let c = trim(trim_start_char(line, '#'));
    if c.unicode_len() == 0 || starts_with(c, "Files") || starts_with(c, "Finished")
        || starts_with(c, "Not a target") || ends_with_char_exec(c, ':') {
        None
    } else {
        Some(c.to_string())
    }
}

fn inline_comment(t: &str) -> (r: Option<String>)
    ensures
        opt_view(r) == inline_desc(t@),
{
    match split_once(t, ':') {
        Some((_, rest)) => match split_once(rest, '#') {
            Some((_, c)) => nonempty_desc(Some(trim(c))),
            None => None,
        },
        None => None,
    }
}

fn find_task(tasks: &Vec<TaskItem>, name: &str) -> (r: usize)
    ensures
        r == task_pos(task_views(tasks@), name@, 0),
{
    let ghost ts = task_views(tasks@);
    let mut p: usize = 0;
    while p < tasks.len() && !str_eq(tasks[p].name.as_str(), name)
        invariant
            p <= tasks@.len(),
            ts == task_views(tasks@),
            task_pos(ts, name@, 0) == task_pos(ts, name@, p as int),
        decreases tasks.len() - p,
    {
        p = p + 1;
    }
    p
}

fn add_task(tasks: &mut Vec<TaskItem>, name: &str)
    ensures
        task_views(final(tasks)@) == add_name(task_views(old(tasks)@), name@),
{
    let p = find_task(tasks, name);
    if p >= tasks.len() {
        let ghost before = task_views(tasks@);
        let t = make_item(name, None);
        tasks.push(t);
        assert(task_views(tasks@) =~= before.push(t@));
    }
}

fn describe_task(tasks: &mut Vec<TaskItem>, name: &str, d: String)
    ensures
        task_views(final(tasks)@) == set_desc(task_views(old(tasks)@), name@, d@),
{
    let p = find_task(tasks, name);
    let ghost before = task_views(tasks@);
    let t = make_item(name, Some(d));
    if p < tasks.len() {
        tasks.set(p, t);
        assert(task_views(tasks@) =~= before.update(p as int, t@));
    } else {
        tasks.push(t);
        assert(task_views(tasks@) =~= before.push(t@));
    }
}

fn add_tasks(tasks: &mut Vec<TaskItem>, names: &Vec<&str>)
    ensures
        task_views(final(tasks)@) == add_names(task_views(old(tasks)@), str_views(names@)),
{
    let ghost start = task_views(tasks@);
    let ghost ns = str_views(names@);
    let mut k: usize = 0;
    while k < names.len()
        invariant
            k <= names@.len(),
            ns == str_views(names@),
            task_views(tasks@) == add_names(start, ns.subrange(0, k as int)),
        decreases names.len() - k,
    {
        assert(ns.subrange(0, k + 1).drop_last() =~= ns.subrange(0, k as int));
        add_task(tasks, names[k]);
        k = k + 1;
    }
    assert(ns.subrange(0, k as int) =~= ns);
}

/// Descriptions found in a makefile's source, by target name.
#[derive(Debug, Clone)]
pub struct MakeDescriptions {
    pub entries: Vec<(String, String)>,
}

pub open spec fn pair_views(v: Seq<(String, String)>) -> Seq<(Seq<char>, Seq<char>)> {
    v.map_values(|p: (String, String)| (p.0@, p.1@))
}

impl MakeDescriptions {
    /// The description of target `name`, if the source gives one.
    pub fn get(&self, name: &str) -> (r: Option<&String>)
        ensures
            match r {
                Some(d) => lookup(pair_views(self.entries@), name@) == Some(d@),
                None => lookup(pair_views(self.entries@), name@) is None,
            },
    {
        let ghost ps = pair_views(self.entries@);
        let mut k = self.entries.len();
        assert(ps.subrange(0, k as int) =~= ps);
        while k > 0
            invariant
                k <= self.entries@.len(),
                ps == pair_views(self.entries@),
                lookup(ps, name@) == lookup(ps.subrange(0, k as int), name@),
            decreases k,
        {
            assert(ps.subrange(0, k as int).drop_last() =~= ps.subrange(0, k - 1));
            if str_eq(self.entries[k - 1].0.as_str(), name) {
                return Some(&self.entries[k - 1].1);
            }
            k = k - 1;
        }
        None
    }
}

fn target_names_exec<'a>(names: &Vec<&'a str>) -> (r: Vec<&'a str>)
    ensures
        str_views(r@) == target_names(str_views(names@)),
{
    let ghost ns = str_views(names@);
    let mut out: Vec<&str> = Vec::new();
    let mut k: usize = 0;
    while k < names.len()
        invariant
            k <= names@.len(),
            ns == str_views(names@),
            str_views(out@) == target_names(ns.subrange(0, k as int)),
        decreases names.len() - k,
    {
        assert(ns.subrange(0, k + 1).drop_last() =~= ns.subrange(0, k as int));
        if is_make_target_name(names[k]) {
            let ghost before = str_views(out@);
            out.push(names[k]);
            assert(str_views(out@) =~= before.push(names@[k as int]@));
        }
        k = k + 1;
    }
    assert(ns.subrange(0, k as int) =~= ns);
    out
}

/// Target descriptions from a makefile's source: the comment on the rule's
/// line, or else the comment line just above it.
pub fn parse_makefile_descriptions(source: &str) -> (r: MakeDescriptions)
    ensures
        pair_views(r.entries@) == desc_scan(lines_of(source@)).pairs,
{
    let lines = split_lines(source);
    let ghost ls = views(lines@);
    let mut entries: Vec<(String, String)> = Vec::new();
    let mut pending: Option<String> = None;
    let mut k: usize = 0;
    assert(pair_views(entries@) =~= Seq::<(Seq<char>, Seq<char>)>::empty());
    while k < lines.len()
        invariant
            k <= lines@.len(),
            ls == views(lines@),
            desc_scan(ls.subrange(0, k as int)) == (DescScan {
                pairs: pair_views(entries@),
                pending: opt_view(pending),
            }),
        decreases lines.len() - k,
    {
        assert(ls.subrange(0, k + 1).drop_last() =~= ls.subrange(0, k as int));
        let line = trim_end(lines[k].as_str());
        let t = trim_start(line);
        proof {
            reveal_strlit("=");
        }
        if line.unicode_len() == 0 {
            pending = None;
        } else if t.unicode_len() > 0 && t.get_char(0) == '#' {
            pending = parse_comment_line(t);
        } else if line.get_char(0) == '\t' || line.get_char(0) == ' ' {
            pending = None;
        } else {
            match split_once(t, ':') {
                None => {
                    pending = None;
                },
                Some((target, rest)) => {
                    let all = split_words(target);
                    let names = target_names_exec(&all);
                    let inline = inline_comment(t);
                    if starts_with(trim_start(rest), "=") || names.len() == 0 {
                        pending = None;
                    } else {
                        let desc = match inline {
                            Some(d) => Some(d),
                            None => pending,
                        };
                        pending = None;
                        if let Some(d) = desc {
                            let ghost before = pair_views(entries@);
                            let ghost ns = str_views(names@);
                            let mut j: usize = 0;
                            while j < names.len()
                                invariant
                                    j <= names@.len(),
                                    ns == str_views(names@),
                                    pair_views(entries@) == before + pair_all(
                                        ns.subrange(0, j as int),
                                        d@,
                                    ),
                                decreases names.len() - j,
                            {
                                let ghost prev = pair_views(entries@);
                                entries.push((names[j].to_string(), d.clone()));
                                assert(pair_views(entries@) =~= prev.push((ns[j as int], d@)));
                                assert(pair_all(ns.subrange(0, j + 1), d@) =~= pair_all(
                                    ns.subrange(0, j as int),
                                    d@,
                                ).push((ns[j as int], d@)));
                                j = j + 1;
                            }
                            assert(ns.subrange(0, j as int) =~= ns);
                        }
                    }
                },
            }
        }
        k = k + 1;
    }
    assert(ls.subrange(0, k as int) =~= ls);
    MakeDescriptions { entries }
}

fn files_marker(lines: &Vec<String>) -> (r: bool)
    ensures
        r == has_files_marker(views(lines@)),
{
    let ghost ls = views(lines@);
    let mut k: usize = 0;
    while k < lines.len()
        invariant
            k <= lines@.len(),
            ls == views(lines@),
            forall|i: int| 0 <= i < k ==> !starts(trim_start_of(#[trigger] ls[i]), "# Files"@),
        decreases lines.len() - k,
    {
        if starts_with(trim_start(lines[k].as_str()), "# Files") {
            assert(starts(trim_start_of(ls[k as int]), "# Files"@));
            return true;
        }
        k = k + 1;
    }
    false
}

fn backfill_exec(tasks: &mut Vec<TaskItem>, descriptions: &MakeDescriptions)
    ensures
        task_views(final(tasks)@) == backfill(
            task_views(old(tasks)@),
            pair_views(descriptions.entries@),
        ),
{
    let ghost start = task_views(tasks@);
    let ghost ps = pair_views(descriptions.entries@);
    let n = tasks.len();
    let mut k: usize = 0;
    while k < n
        invariant
            n == tasks@.len(),
            n == start.len(),
            k <= n,
            ps == pair_views(descriptions.entries@),
            forall|j: int| 0 <= j < k ==> task_views(tasks@)[j] == backfill(start, ps)[j],
            forall|j: int| k <= j < n ==> task_views(tasks@)[j] == start[j],
        decreases n - k,
    {
        if tasks[k].description.is_none() {
            if let Some(d) = descriptions.get(tasks[k].name.as_str()) {
                let t = make_item(tasks[k].name.as_str(), Some(d.clone()));
                let ghost before = task_views(tasks@);
                tasks.set(k, t);
                assert(task_views(tasks@) =~= before.update(k as int, t@));
            }
        }
        k = k + 1;
    }
    assert(task_views(tasks@) =~= backfill(start, ps));
}

/// Tasks of a make listing. When the dump has a `# Files` section only that
/// section is read, up to the `# Finished` marker; `.PHONY:` names that can
/// be tasks count as tasks without a rule. Descriptions come from the rule line's comment or
/// the comment line above it, and else from `makefile_source`. Tasks are
/// listed in the order they first appear.
pub fn parse_with_makefile_source(output: &str, makefile_source: Option<&str>) -> (r: Vec<TaskItem>)
    ensures
        task_views(r@) == make_catalog(
            output@,
            match makefile_source {
                Some(s) => Some(s@),
                None => None,
            },
        ),
{
    let lines = split_lines(output);
    let ghost ls = views(lines@);
    let start_in_files = !files_marker(&lines);
    let mut in_files = start_in_files;
    let mut done = false;
    let mut pending: Option<String> = None;
    let mut tasks: Vec<TaskItem> = Vec::new();
    let mut k: usize = 0;
    assert(task_views(tasks@) =~= Seq::<Task>::empty());
    while k < lines.len()
        invariant
            k <= lines@.len(),
            ls == views(lines@),
            make_scan(ls.subrange(0, k as int), start_in_files) == (MakeScan {
                in_files,
                done,
                pending: opt_view(pending),
                tasks: task_views(tasks@),
            }),
        decreases lines.len() - k,
    {
        assert(ls.subrange(0, k + 1).drop_last() =~= ls.subrange(0, k as int));
        let line = trim_end(lines[k].as_str());
        let t = trim_start(line);
        if done {
        } else if line.unicode_len() == 0 {
            pending = None;
        } else if starts_with(t, "# Files") {
            in_files = true;
            pending = None;
        } else if starts_with(t, "# Finished") {
            done = true;
        } else if starts_with(t, ".PHONY:") {
            proof {
                reveal_strlit(".PHONY:");
            }
            let found = split_words(t.substring_char(7, t.unicode_len()));
            let names = target_names_exec(&found);
            add_tasks(&mut tasks, &names);
            pending = None;
        } else if !in_files {
            pending = None;
        } else if t.unicode_len() > 0 && t.get_char(0) == '#' {
            pending = parse_comment_line(t);
        } else if line.get_char(0) == '\t' || line.get_char(0) == ' ' {
            pending = None;
        } else {
            match split_once(t, ':') {
                None => {},
                Some((target, _)) => {
                    let name = trim(target);
                    let inline = inline_comment(t);
                    if !is_make_target_name(name) {
                        pending = None;
                    } else {
                        let desc = match inline {
                            Some(d) => Some(d),
                            None => pending,
                        };
                        pending = None;
                        match desc {
                            Some(d) => describe_task(&mut tasks, name, d),
                            None => add_task(&mut tasks, name),
                        }
                    }
                },
            }
        }
        k = k + 1;
    }
    assert(ls.subrange(0, k as int) =~= ls);
    if let Some(source) = makefile_source {
        let descriptions = parse_makefile_descriptions(source);
        backfill_exec(&mut tasks, &descriptions);
    }
    tasks
}

/// Tasks of a make listing, without a makefile source to describe them.
pub fn parse(output: &str) -> (r: Vec<TaskItem>)
    ensures
        task_views(r@) == make_catalog(output@, None),
{
    parse_with_makefile_source(output, None)
}

pub proof fn lemma_add_names_named(ts: Seq<Task>, ns: Seq<Seq<char>>)
    requires
        named(ts),
        forall|i: int| 0 <= i < ns.len() ==> (#[trigger] ns[i]).len() > 0,
    ensures
        named(add_names(ts, ns)),
    decreases ns.len(),
{
    if ns.len() > 0 {
        lemma_add_names_named(ts, ns.drop_last());
        let a = add_names(ts, ns.drop_last());
        assert(ns.last().len() > 0);
        let r = add_name(a, ns.last());
        assert forall|i: int| 0 <= i < r.len() implies (#[trigger] r[i]).name.len() > 0 by {
            if i < a.len() {
                assert(r[i] == a[i]);
            }
        }
    }
}

pub proof fn lemma_target_names(ns: Seq<Seq<char>>)
    ensures
        forall|i: int| 0 <= i < target_names(ns).len() ==> target_name(#[trigger] target_names(ns)[i]),
    decreases ns.len(),
{
    if ns.len() > 0 {
        lemma_target_names(ns.drop_last());
        let prev = target_names(ns.drop_last());
        let cur = target_names(ns);
        assert forall|i: int| 0 <= i < cur.len() implies target_name(#[trigger] cur[i]) by {
            if i < prev.len() {
                assert(cur[i] == prev[i]);
            }
        }
    }
}

pub proof fn lemma_step_named(st: MakeScan, raw: Seq<char>)
    requires
        named(st.tasks),
    ensures
        named(make_step(st, raw).tasks),
{
    let t = trim_start_of(trim_end_of(raw));
    lemma_target_names(words(t.subrange(7, t.len() as int)));
    lemma_add_names_named(st.tasks, target_names(words(t.subrange(7, t.len() as int))));
    if let Some((target, _)) = split_once_of(t, ':') {
        let name = trim_of(target);
        if target_name(name) {
            lemma_task_pos(st.tasks, name, 0);
            let a = add_name(st.tasks, name);
            assert forall|i: int| 0 <= i < a.len() implies (#[trigger] a[i]).name.len() > 0 by {
                if i < st.tasks.len() {
                    assert(a[i] == st.tasks[i]);
                }
            }
            let d = match inline_desc(t) {
                Some(d) => Some(d),
                None => st.pending,
            };
            if let Some(dd) = d {
                let u = set_desc(st.tasks, name, dd);
                assert forall|i: int| 0 <= i < u.len() implies (#[trigger] u[i]).name.len() > 0 by {
                    if i < st.tasks.len() && i != task_pos(st.tasks, name, 0) {
                        assert(u[i] == st.tasks[i]);
                    }
                }
            }
        }
    }
}

pub proof fn lemma_task_pos(ts: Seq<Task>, n: Seq<char>, i: int)
    requires
        0 <= i <= ts.len(),
    ensures
        i <= task_pos(ts, n, i) <= ts.len(),
    decreases ts.len() - i,
{
    if i < ts.len() && ts[i].name != n {
        lemma_task_pos(ts, n, i + 1);
    }
}

pub proof fn lemma_make_scan_named(ls: Seq<Seq<char>>, b: bool)
    ensures
        named(make_scan(ls, b).tasks),
    decreases ls.len(),
{
    if ls.len() > 0 {
        lemma_make_scan_named(ls.drop_last(), b);
        lemma_step_named(make_scan(ls.drop_last(), b), ls.last());
    }
}

/// Every task of a make catalog has a name.
pub proof fn lemma_make_catalog_named(output: Seq<char>, source: Option<Seq<char>>)
    ensures
        named(make_catalog(output, source)),
{
    let ls = lines_of(output);
    lemma_make_scan_named(ls, !has_files_marker(ls));
    let ts = make_scan(ls, !has_files_marker(ls)).tasks;
    if let Some(src) = source {
        let r = backfill(ts, desc_scan(lines_of(src)).pairs);
        assert forall|i: int| 0 <= i < r.len() implies (#[trigger] r[i]).name.len() > 0 by {
            assert(r[i].name == ts[i].name);
        }
    }
}

} // verus!
