//! The justfile dialect: `just --list` output, and justfile source text with
//! its imports, comments and recipe headers.
use vstd::prelude::*;

use crate::command::last_slash;
use crate::task_args::{find_top_level, top_find_from, lemma_top_find};
use crate::tasks::{named, make_item, nonempty, nonempty_desc, opt_view, push_item, task_views, Task, TaskItem};
use crate::text::{
    find_from, find_from_exec, first_word, first_word_exec, is_ws, lemma_find_from, lines_of,
    split_lines, split_once, split_once_of, starts, starts_with, trim,
    trim_end, trim_end_of, trim_of, trim_start, trim_start_char, trim_start_char_of,
    trim_start_of, views, ws,
};

verus! {

/// The task that one `just --list` line names, if any.
pub open spec fn just_list_line(l: Seq<char>) -> Option<Task> {
    let line = trim_of(l);
    let (left, desc) = match split_once_of(line, '#') {
        Some((a, b)) => (trim_of(a), Some(trim_of(b))),
        None => (line, None),
    };
    let name = first_word(left);
    if line.len() == 0 || starts(line, "Available"@) || starts(line, "Recipes"@) || name.len()
        == 0 {
        None
    } else {
        Some(Task { name, description: nonempty(desc) })
    }
}

pub open spec fn just_list(ls: Seq<Seq<char>>) -> Seq<Task>
    decreases ls.len(),
{
    if ls.len() == 0 {
        Seq::empty()
    } else {
        let r = just_list(ls.drop_last());
        match just_list_line(ls.last()) {
            Some(t) => r.push(t),
            None => r,
        }
    }
}

fn parse_list_line(l: &str) -> (r: Option<TaskItem>)
    ensures
        match (r, just_list_line(l@)) {
            (Some(t), Some(u)) => t@ == u,
            (None, None) => true,
            _ => false,
        },
{
    let line = trim(l);
    if line.unicode_len() == 0 || starts_with(line, "Available") || starts_with(line, "Recipes") {
        return None;
    }
    let (left, desc) = match split_once(line, '#') {
        Some((a, b)) => (trim(a), Some(trim(b))),
        None => (line, None),
    };
    let name = first_word_exec(left);
    if name.unicode_len() == 0 {
        return None;
    }
    Some(make_item(name, nonempty_desc(desc)))
}

/// Tasks of a `just --list` listing, in listing order.
pub fn parse(output: &str) -> (r: Vec<TaskItem>)
    ensures
        task_views(r@) == just_list(lines_of(output@)),
{
    let lines = split_lines(output);
    let ghost ls = views(lines@);
    let mut items: Vec<TaskItem> = Vec::new();
    let mut k: usize = 0;
    while k < lines.len()
        invariant
            k <= lines@.len(),
            ls == views(lines@),
            task_views(items@) == just_list(ls.subrange(0, k as int)),
        decreases lines.len() - k,
    {
        assert(ls.subrange(0, k + 1).drop_last() =~= ls.subrange(0, k as int));
        if let Some(t) = parse_list_line(lines[k].as_str()) {
            push_item(&mut items, t);
        }
        k = k + 1;
    }
    assert(ls.subrange(0, k as int) =~= ls);
    items
}

/// An import directive: the path as written, and whether a missing target
/// is skipped (`import?`) rather than an error.
#[derive(Debug, Clone, PartialEq, Eq)]
pub struct ImportSpec {
    pub raw: String,
    pub optional: bool,
}

pub struct Import {
    pub raw: Seq<char>,
    pub optional: bool,
}

impl View for ImportSpec {
    type V = Import;

    open spec fn view(&self) -> Import {
        Import { raw: self.raw@, optional: self.optional }
    }
}

pub open spec fn import_views(v: Seq<ImportSpec>) -> Seq<Import> {
    v.map_values(|i: ImportSpec| i@)
}

/// The imports and recipes that one justfile declares, in source order.
#[derive(Debug, Clone)]
pub struct ParsedFile {
    pub imports: Vec<ImportSpec>,
    pub recipes: Vec<TaskItem>,
}

/// The import a line declares: `import` or `import?`, then a path in
/// single or double quotes.
pub open spec fn import_line(t: Seq<char>) -> Option<Import> {
    let optional = starts(t, "import?"@);
    let rest = trim_start_of(t.subrange(if optional { 7 } else { 6 }, t.len() as int));
    let body = rest.subrange(1, rest.len() as int);
    let e = find_from(body, rest[0], 0);
    if !starts(t, "import"@) || rest.len() == 0 || (rest[0] != '\'' && rest[0] != '"') || e
        >= body.len() || e == 0 {
        None
    } else {
        Some(Import { raw: body.subrange(0, e), optional })
    }
}

/// The text of a comment line without its `#`s, if any text is left.
pub open spec fn comment_text(t: Seq<char>) -> Option<Seq<char>> {
    nonempty(Some(trim_of(trim_start_char_of(t, '#'))))
}

/// The recipe a header line declares; an inline `#` comment wins over the
/// comment block above it (`pending`).
pub open spec fn recipe_line(t: Seq<char>, pending: Option<Seq<char>>) -> Option<Task> {
    let hp = top_find_from(t, '#', 0);
    let (left, inline) = if hp < t.len() {
        (trim_end_of(t.subrange(0, hp)), Some(trim_of(t.subrange(hp + 1, t.len() as int))))
    } else {
        (t, None)
    };
    let h = top_find_from(left, ':', 0);
    let name = first_word(left.subrange(0, h));
    if h >= left.len() || starts(left.subrange(h, left.len() as int), seq![':', '=']) || name.len()
        == 0 {
        None
    } else {
        Some(
            Task {
                name,
                description: match nonempty(inline) {
                    Some(d) => Some(d),
                    None => pending,
                },
            },
        )
    }
}

/// What a justfile scan has gathered so far.
pub struct JustScan {
    pub imports: Seq<Import>,
    pub recipes: Seq<Task>,
    pub pending: Option<Seq<char>>,
}

/// One source line's effect on the scan.
pub open spec fn just_step(st: JustScan, raw: Seq<char>) -> JustScan {
    let line = trim_end_of(raw);
    if line.len() == 0 || ws(line[0]) {
        JustScan { pending: None, ..st }
    } else if import_line(line) is Some {
        JustScan { imports: st.imports.push(import_line(line)->0), pending: None, ..st }
    } else if line[0] == '#' {
        JustScan { pending: comment_text(line), ..st }
    } else if recipe_line(line, st.pending) is Some {
        JustScan { recipes: st.recipes.push(recipe_line(line, st.pending)->0), pending: None, ..st }
    } else {
        JustScan { pending: None, ..st }
    }
}

pub open spec fn just_scan(ls: Seq<Seq<char>>) -> JustScan
    decreases ls.len(),
{
    if ls.len() == 0 {
        JustScan { imports: Seq::empty(), recipes: Seq::empty(), pending: None }
    } else {
        just_step(just_scan(ls.drop_last()), ls.last())
    }
}

/// The import directive on `line`, if it is one.
pub fn parse_import_line(line: &str) -> (r: Option<ImportSpec>)
    ensures
        match (r, import_line(line@)) {
            (Some(i), Some(j)) => i@ == j,
            (None, None) => true,
            _ => false,
        },
{
    proof {
        reveal_strlit("import");
        reveal_strlit("import?");
    }
    if !starts_with(line, "import") {
        return None;
    }
    let optional = starts_with(line, "import?");
    let n = line.unicode_len();
    let rest = trim_start(line.substring_char(if optional { 7 } else { 6 }, n));
    let m = rest.unicode_len();
    if m == 0 {
        return None;
    }
    let quote = rest.get_char(0);
    if quote != '\'' && quote != '"' {
        return None;
    }
    let body = rest.substring_char(1, m);
    let e = find_from_exec(body, quote, 0);
    proof {
        lemma_find_from(body@, quote, 0);
    }
    if e >= body.unicode_len() || e == 0 {
        return None;
    }
    Some(ImportSpec { raw: body.substring_char(0, e).to_string(), optional })
}

/// The comment on a `#` line, without its markers, if it holds any text.
pub fn parse_comment_line(line: &str) -> (r: Option<String>)
    ensures
        opt_view(r) == comment_text(line@),
{
    let c = trim(trim_start_char(line, '#'));
    nonempty_desc(Some(c))
}

/// The recipe declared by a header line, with `pending_desc` as the
/// description when the line carries none of its own.
pub fn parse_recipe_line(line: &str, pending_desc: Option<String>) -> (r: Option<TaskItem>)
    ensures
        match (r, recipe_line(line@, opt_view(pending_desc))) {
            (Some(t), Some(u)) => t@ == u,
            (None, None) => true,
            _ => false,
        },
{
    let n = line.unicode_len();
    let hp = find_top_level(line, '#');
    let (left, inline) = if hp < n {
        (trim_end(line.substring_char(0, hp)), Some(trim(line.substring_char(hp + 1, n))))
    } else {
        (line, None)
    };
    let m = left.unicode_len();
    let h = find_top_level(left, ':');
    if h >= m {
        return None;
    }
    proof {
        lemma_top_find(left@, ':', 0);
    }
    if h + 1 < m && left.get_char(h + 1) == '=' {
        assert(starts(left@.subrange(h as int, m as int), seq![':', '='])) by {
            assert(left@.subrange(h as int, m as int).subrange(0, 2) =~= seq![':', '=']);
        }
        return None;
    }
    assert(!starts(left@.subrange(h as int, m as int), seq![':', '=']));
    let name = first_word_exec(left.substring_char(0, h));
    if name.unicode_len() == 0 {
        return None;
    }
    let description = match nonempty_desc(inline) {
        Some(d) => Some(d),
        None => pending_desc,
    };
    Some(make_item(name, description))
}

/// Imports and recipes of a justfile's source text.
pub fn parse_justfile_contents(contents: &str) -> (r: ParsedFile)
    ensures
        import_views(r.imports@) == just_scan(lines_of(contents@)).imports,
        task_views(r.recipes@) == just_scan(lines_of(contents@)).recipes,
{
    let lines = split_lines(contents);
    let ghost ls = views(lines@);
    let mut imports: Vec<ImportSpec> = Vec::new();
    let mut recipes: Vec<TaskItem> = Vec::new();
    let mut pending: Option<String> = None;
    let mut k: usize = 0;
    assert(import_views(imports@) =~= Seq::<Import>::empty());
    assert(task_views(recipes@) =~= Seq::<Task>::empty());
    while k < lines.len()
        invariant
            k <= lines@.len(),
            ls == views(lines@),
            just_scan(ls.subrange(0, k as int)) == (JustScan {
                imports: import_views(imports@),
                recipes: task_views(recipes@),
                pending: opt_view(pending),
            }),
        decreases lines.len() - k,
    {
        assert(ls.subrange(0, k + 1).drop_last() =~= ls.subrange(0, k as int));
        let line = trim_end(lines[k].as_str());
        let n = line.unicode_len();
        if n == 0 || is_ws(line.get_char(0)) {
            pending = None;
        } else if let Some(import) = parse_import_line(line) {
            let ghost before = import_views(imports@);
            imports.push(import);
            assert(import_views(imports@) =~= before.push(import@));
            pending = None;
        } else if line.get_char(0) == '#' {
            pending = parse_comment_line(line);
        } else if let Some(recipe) = parse_recipe_line(line, pending) {
            push_item(&mut recipes, recipe);
            pending = None;
        } else {
            pending = None;
        }
        k = k + 1;
    }
    assert(ls.subrange(0, k as int) =~= ls);
    ParsedFile { imports, recipes }
}

/// A catalog entry with the import depth of the file that declared it.
#[derive(Debug)]
pub struct TaskEntry {
    pub item: TaskItem,
    pub depth: usize,
}

pub struct Resolved {
    pub task: Task,
    pub depth: nat,
}

impl View for TaskEntry {
    type V = Resolved;

    open spec fn view(&self) -> Resolved {
        Resolved { task: self.item@, depth: self.depth as nat }
    }
}

/// Entries that survive resolution, in the order they were last accepted.
pub struct ParseState {
    pub entries: Vec<TaskEntry>,
    /// Files whose walk has finished.
    pub visited: Ghost<Set<int>>,
}

pub open spec fn entry_views(v: Seq<TaskEntry>) -> Seq<Resolved> {
    v.map_values(|e: TaskEntry| e@)
}

/// No two entries share a name.
pub open spec fn unique_names(es: Seq<Resolved>) -> bool {
    forall|i: int, j: int|
        0 <= i < j < es.len() ==> (#[trigger] es[i]).task.name != (#[trigger] es[j]).task.name
}

/// First index at or after `i` of an entry named `n` (or the length).
pub open spec fn name_pos(es: Seq<Resolved>, n: Seq<char>, i: int) -> int
    decreases es.len() - i,
{
    if i >= es.len() {
        es.len() as int
    } else if es[i].task.name == n {
        i
    } else {
        name_pos(es, n, i + 1)
    }
}

/// Declaring `t` at depth `d`: a new name is appended; a known name is
/// replaced (and moves to the end) when `d` is no deeper than the entry it
/// meets, and ignored otherwise.
pub open spec fn insert_entry(es: Seq<Resolved>, t: Task, d: nat) -> Seq<Resolved> {
    let p = name_pos(es, t.name, 0);
    if p >= es.len() {
        es.push(Resolved { task: t, depth: d })
    } else if d <= es[p].depth {
        es.remove(p).push(Resolved { task: t, depth: d })
    } else {
        es
    }
}

pub proof fn lemma_name_pos(es: Seq<Resolved>, n: Seq<char>, i: int)
    requires
        0 <= i <= es.len(),
    ensures
        i <= name_pos(es, n, i) <= es.len(),
        forall|k: int| i <= k < name_pos(es, n, i) ==> (#[trigger] es[k]).task.name != n,
        name_pos(es, n, i) < es.len() ==> es[name_pos(es, n, i)].task.name == n,
    decreases es.len() - i,
{
    if i < es.len() && es[i].task.name != n {
        lemma_name_pos(es, n, i + 1);
    }
}

pub proof fn lemma_insert_unique(es: Seq<Resolved>, t: Task, d: nat)
    requires
        unique_names(es),
    ensures
        unique_names(insert_entry(es, t, d)),
{
    lemma_name_pos(es, t.name, 0);
    let p = name_pos(es, t.name, 0);
    if p < es.len() && d <= es[p].depth {
        let r = es.remove(p);
        assert forall|i: int| 0 <= i < r.len() implies (#[trigger] r[i]).task.name != t.name by {
            if i < p {
                assert(r[i] == es[i]);
            } else {
                assert(r[i] == es[i + 1]);
            }
        }
    }
}

/// The last of `rs` named `n`, if any.
pub open spec fn last_named(rs: Seq<Task>, n: Seq<char>) -> Option<Task>
    decreases rs.len(),
{
    if rs.len() == 0 {
        None
    } else if rs.last().name == n {
        Some(rs.last())
    } else {
        last_named(rs.drop_last(), n)
    }
}

/// For each name `rs` declares, `es` holds its last declaration at depth 0.
pub open spec fn root_declared(es: Seq<Resolved>, rs: Seq<Task>) -> bool {
    forall|k: int|
        0 <= k < rs.len() ==> exists|p: int|
            0 <= p < es.len() && (#[trigger] es[p]) == (Resolved {
                task: last_named(rs, (#[trigger] rs[k]).name)->0,
                depth: 0,
            })
}

pub proof fn lemma_last_named(rs: Seq<Task>, n: Seq<char>, k: int)
    requires
        0 <= k < rs.len(),
        rs[k].name == n,
    ensures
        last_named(rs, n) is Some,
        last_named(rs, n)->0.name == n,
    decreases rs.len(),
{
    if rs.last().name != n {
        lemma_last_named(rs.drop_last(), n, k);
    }
}

/// A declaration at depth 0 always takes its name's place, and leaves every
/// entry of another name where it was.
pub proof fn lemma_insert_root(es: Seq<Resolved>, t: Task, e: Resolved)
    ensures
        insert_entry(es, t, 0).contains(Resolved { task: t, depth: 0 }),
        es.contains(e) && e.task.name != t.name ==> insert_entry(es, t, 0).contains(e),
{
    lemma_name_pos(es, t.name, 0);
    let p = name_pos(es, t.name, 0);
    let r = insert_entry(es, t, 0);
    assert(r[r.len() - 1] == Resolved { task: t, depth: 0 });
    if es.contains(e) && e.task.name != t.name {
        let q = choose|q: int| 0 <= q < es.len() && es[q] == e;
        if p >= es.len() {
            assert(r[q] == e);
        } else {
            assert(q != p);
            if q < p {
                assert(r[q] == e);
            } else {
                assert(r[q - 1] == e);
            }
        }
    }
}

fn copy_item(t: &TaskItem) -> (r: TaskItem)
    ensures
        r@ == t@,
{
    let description = match &t.description {
        Some(d) => Some(d.clone()),
        None => None,
    };
    TaskItem { name: t.name.clone(), description }
}

impl ParseState {
    pub open spec fn wf(&self) -> bool {
        unique_names(entry_views(self.entries@))
    }

    pub fn new() -> (r: ParseState)
        ensures
            r.wf(),
            entry_views(r.entries@) == Seq::<Resolved>::empty(),
            r.visited@ == Set::<int>::empty(),
    {
        let r = ParseState { entries: Vec::new(), visited: Ghost(Set::empty()) };
        assert(entry_views(r.entries@) =~= Seq::<Resolved>::empty());
        r
    }

    /// Records `item` declared at import depth `depth`.
    pub fn insert(&mut self, item: TaskItem, depth: usize)
        requires
            old(self).wf(),
        ensures
            final(self).wf(),
            entry_views(final(self).entries@) == insert_entry(
                entry_views(old(self).entries@),
                item@,
                depth as nat,
            ),
            final(self).visited@ == old(self).visited@,
    {
        let ghost es = entry_views(self.entries@);
        let n = self.entries.len();
        let mut p: usize = 0;
        while p < n && !crate::task_args::str_eq(self.entries[p].item.name.as_str(), item.name.as_str())
            invariant
                n == self.entries@.len(),
                es == entry_views(self.entries@),
                p <= n,
                name_pos(es, item@.name, 0) == name_pos(es, item@.name, p as int),
            decreases n - p,
        {
            p = p + 1;
        }
        proof {
            lemma_insert_unique(es, item@, depth as nat);
        }
        let entry = TaskEntry { item, depth };
        if p >= n {
            self.entries.push(entry);
            assert(entry_views(self.entries@) =~= es.push(entry@));
        } else if depth <= self.entries[p].depth {
            self.entries.remove(p);
            assert(entry_views(self.entries@) =~= es.remove(p as int));
            self.entries.push(entry);
            assert(entry_views(self.entries@) =~= es.remove(p as int).push(entry@));
        }
    }

    /// The surviving tasks, in the order they were accepted.
    pub fn into_items(self) -> (r: Vec<TaskItem>)
        ensures
            task_views(r@) == entry_views(self.entries@).map_values(|e: Resolved| e.task),
    {
        let mut out: Vec<TaskItem> = Vec::new();
        let mut k: usize = 0;
        while k < self.entries.len()
            invariant
                k <= self.entries@.len(),
                task_views(out@) == entry_views(self.entries@).subrange(0, k as int).map_values(
                    |e: Resolved| e.task,
                ),
            decreases self.entries.len() - k,
        {
            let t = copy_item(&self.entries[k].item);
            let ghost before = task_views(out@);
            out.push(t);
            assert(task_views(out@) =~= before.push(t@));
            assert(entry_views(self.entries@).subrange(0, k + 1).map_values(|e: Resolved| e.task)
                =~= entry_views(self.entries@).subrange(0, k as int).map_values(
                |e: Resolved| e.task,
            ).push(t@));
            k = k + 1;
        }
        assert(entry_views(self.entries@).subrange(0, k as int) =~= entry_views(self.entries@));
        out
    }
}

/// A justfile read from disk: what it declares, and for each of its imports
/// the index of the loaded file it names, or `None` when that file does not
/// exist. Files are identified by their index; a file reached along two
/// paths is loaded once.
#[derive(Debug, Clone)]
pub struct LoadedFile {
    pub parsed: ParsedFile,
    pub targets: Vec<Option<usize>>,
}

/// A required import whose target does not exist: the importing file's index
/// and the import's position among its imports.
#[derive(Debug, Clone, Copy, PartialEq, Eq)]
pub struct MissingImport {
    pub file: usize,
    pub import: usize,
}

/// The loaded file that import `i` of `f` names, if it was found.
pub open spec fn target_of(files: Seq<LoadedFile>, f: int, i: int) -> Option<int> {
    let ts = files[f].targets@;
    if 0 <= i < ts.len() && i < files[f].parsed.imports@.len() && ts[i] is Some && (ts[i]->0 as int) < files.len() {
        Some(ts[i]->0 as int)
    } else {
        None
    }
}

/// `e` names a required import of a loaded file whose target was not found.
pub open spec fn is_missing(files: Seq<LoadedFile>, e: MissingImport) -> bool {
    e.file < files.len() && e.import < files[e.file as int].parsed.imports@.len()
        && !files[e.file as int].parsed.imports@[e.import as int].optional && target_of(
        files,
        e.file as int,
        e.import as int,
    ) is None
}

pub proof fn lemma_distinct_bound(s: Seq<usize>, n: usize)
    requires
        s.no_duplicates(),
        forall|i: int| 0 <= i < s.len() ==> s[i] < n,
    ensures
        s.len() <= n,
{
    let t = s.map_values(|x: usize| x as int);
    assert(t.no_duplicates()) by {
        assert forall|i: int, j: int| 0 <= i < t.len() && 0 <= j < t.len() && i != j implies t[i]
            != t[j] by {
            assert(s[i] != s[j]);
        }
    }
    t.unique_seq_to_set();
    vstd::set_lib::lemma_int_range(0, n as int);
    assert(t.to_set().subset_of(vstd::set_lib::set_int_range(0, n as int)));
    vstd::set_lib::lemma_len_subset(t.to_set(), vstd::set_lib::set_int_range(0, n as int));
}

/// `t` is a recipe that one of the loaded files declares.
pub open spec fn declared(files: Seq<LoadedFile>, t: Task) -> bool {
    exists|f: int, k: int|
        0 <= f < files.len() && 0 <= k < files[f].parsed.recipes@.len() && (
        #[trigger] files[f].parsed.recipes@[k])@ == t
}

pub open spec fn all_declared(files: Seq<LoadedFile>, es: Seq<Resolved>) -> bool {
    forall|p: int| 0 <= p < es.len() ==> declared(files, (#[trigger] es[p]).task)
}

pub proof fn lemma_insert_declared(files: Seq<LoadedFile>, es: Seq<Resolved>, t: Task, d: nat)
    requires
        all_declared(files, es),
        declared(files, t),
    ensures
        all_declared(files, insert_entry(es, t, d)),
{
    lemma_name_pos(es, t.name, 0);
    let p = name_pos(es, t.name, 0);
    let r = insert_entry(es, t, d);
    assert forall|q: int| 0 <= q < r.len() implies declared(files, (#[trigger] r[q]).task) by {
        if p < es.len() && d <= es[p].depth {
            if q < r.len() - 1 {
                if q < p {
                    assert(r[q] == es[q]);
                } else {
                    assert(r[q] == es[q + 1]);
                }
            }
        } else if p >= es.len() {
            if q < es.len() {
                assert(r[q] == es[q]);
            }
        }
    }
}

/// Some entry is named `n`.
pub open spec fn present(es: Seq<Resolved>, n: Seq<char>) -> bool {
    exists|p: int| 0 <= p < es.len() && (#[trigger] es[p]).task.name == n
}

/// Every name that file `g` declares has an entry.
pub open spec fn file_present(files: Seq<LoadedFile>, es: Seq<Resolved>, g: int) -> bool {
    forall|k: int|
        0 <= k < files[g].parsed.recipes@.len() ==> present(
            es,
            (#[trigger] files[g].parsed.recipes@[k])@.name,
        )
}

/// The files whose walk has finished have all their names entered.
pub open spec fn visited_ok(files: Seq<LoadedFile>, es: Seq<Resolved>, v: Set<int>) -> bool {
    forall|g: int| #[trigger] v.contains(g) ==> 0 <= g < files.len() && file_present(files, es, g)
}

pub open spec fn on_path(stack: Seq<usize>, t: int) -> bool {
    exists|s: int| 0 <= s < stack.len() && stack[s] as int == t
}

/// Every file an import of a finished file names is finished too, or is
/// still being walked.
pub open spec fn closed(files: Seq<LoadedFile>, v: Set<int>, stack: Seq<usize>) -> bool {
    forall|g: int, i: int|
        v.contains(g) && (#[trigger] target_of(files, g, i)) is Some ==> v.contains(
            target_of(files, g, i)->0,
        ) || on_path(stack, target_of(files, g, i)->0)
}

/// File `f` is the root or is named by an import of a file reached in
/// fewer than `k` steps.
pub open spec fn reach(files: Seq<LoadedFile>, k: nat, f: int) -> bool
    decreases k,
{
    if k == 0 {
        f == 0
    } else {
        reach(files, (k - 1) as nat, f) || exists|g: int, i: int|
            reach(files, (k - 1) as nat, g) && #[trigger] target_of(files, g, i) == Some(f)
    }
}

pub proof fn lemma_insert_present(es: Seq<Resolved>, t: Task, d: nat, n: Seq<char>)
    ensures
        present(es, n) ==> present(insert_entry(es, t, d), n),
        present(insert_entry(es, t, d), t.name),
{
    lemma_name_pos(es, t.name, 0);
    let p = name_pos(es, t.name, 0);
    let r = insert_entry(es, t, d);
    if p < es.len() && d > es[p].depth {
        assert(r[p].task.name == t.name);
    } else {
        assert(r[r.len() - 1].task.name == t.name);
    }
    if present(es, n) {
        let q = choose|q: int| 0 <= q < es.len() && (#[trigger] es[q]).task.name == n;
        if p >= es.len() {
            assert(r[q].task.name == n);
        } else if d <= es[p].depth {
            if q == p {
                assert(r[r.len() - 1].task.name == n);
            } else if q < p {
                assert(r[q].task.name == n);
            } else {
                assert(r[q - 1].task.name == n);
            }
        } else {
            assert(r[q].task.name == n);
        }
    }
}

pub proof fn lemma_insert_keeps_visited(files: Seq<LoadedFile>, es: Seq<Resolved>, t: Task, d: nat, v: Set<int>)
    requires
        visited_ok(files, es, v),
    ensures
        visited_ok(files, insert_entry(es, t, d), v),
{
    assert forall|g: int| #[trigger] v.contains(g) implies 0 <= g < files.len() && file_present(
        files,
        insert_entry(es, t, d),
        g,
    ) by {
        assert forall|k: int| 0 <= k < files[g].parsed.recipes@.len() implies present(
            insert_entry(es, t, d),
            (#[trigger] files[g].parsed.recipes@[k])@.name,
        ) by {
            lemma_insert_present(es, t, d, files[g].parsed.recipes@[k]@.name);
        }
    }
}

/// Every file reachable from the root is among the finished files once
/// nothing is being walked.
pub proof fn lemma_reach_visited(files: Seq<LoadedFile>, v: Set<int>, k: nat, f: int)
    requires
        v.contains(0),
        closed(files, v, Seq::empty()),
        reach(files, k, f),
    ensures
        v.contains(f),
    decreases k,
{
    if k > 0 {
        if reach(files, (k - 1) as nat, f) {
            lemma_reach_visited(files, v, (k - 1) as nat, f);
        } else {
            let (g, i) = choose|g: int, i: int|
                reach(files, (k - 1) as nat, g) && #[trigger] target_of(files, g, i) == Some(f);
            lemma_reach_visited(files, v, (k - 1) as nat, g);
            assert(target_of(files, g, i) is Some);
        }
    }
}

/// The entries after declaring each of `ds` in turn.
pub open spec fn insert_all(es: Seq<Resolved>, ds: Seq<Resolved>) -> Seq<Resolved>
    decreases ds.len(),
{
    if ds.len() == 0 {
        es
    } else {
        insert_entry(insert_all(es, ds.drop_last()), ds.last().task, ds.last().depth)
    }
}

pub proof fn lemma_insert_all_concat(es: Seq<Resolved>, a: Seq<Resolved>, b: Seq<Resolved>)
    ensures
        insert_all(es, a + b) == insert_all(insert_all(es, a), b),
    decreases b.len(),
{
    if b.len() == 0 {
        assert(a + b =~= a);
    } else {
        assert((a + b).drop_last() =~= a + b.drop_last());
        lemma_insert_all_concat(es, a, b.drop_last());
    }
}

/// The recipes of file `f`, declared at `depth`.
pub open spec fn own_decls(files: Seq<LoadedFile>, f: int, depth: nat) -> Seq<Resolved> {
    task_views(files[f].parsed.recipes@).map_values(|t: Task| Resolved { task: t, depth })
}

/// The declarations met walking file `f` depth first, with `path` the files
/// being walked above it: nothing when `f` is on the path (an import
/// cycle); else the walks of its imports in declaration order, one level
/// deeper, then its own recipes.
pub open spec fn walk_file(files: Seq<LoadedFile>, f: int, path: Seq<usize>) -> Seq<Resolved>
    decreases files.len() - path.len(), 1int, 0int,
{
    if path.len() >= files.len() || on_path(path, f) || !(0 <= f < files.len()) {
        Seq::empty()
    } else {
        walk_imports(files, f, files[f].parsed.imports@.len() as int, path.push(f as usize))
            + own_decls(files, f, path.len())
    }
}

/// The walks of the first `i` imports of file `f`, with `path` ending in `f`.
pub open spec fn walk_imports(files: Seq<LoadedFile>, f: int, i: int, path: Seq<usize>) -> Seq<Resolved>
    decreases files.len() - path.len() + 1, 0int, i,
{
    if i <= 0 || path.len() > files.len() {
        Seq::empty()
    } else {
        walk_imports(files, f, i - 1, path) + match target_of(files, f, i - 1) {
            Some(j) => walk_file(files, j, path),
            None => Seq::empty(),
        }
    }
}

fn on_stack(stack: &Vec<usize>, idx: usize) -> (r: bool)
    ensures
        r == stack@.contains(idx),
{
    let mut k: usize = 0;
    while k < stack.len()
        invariant
            k <= stack@.len(),
            forall|j: int| 0 <= j < k ==> stack@[j] != idx,
        decreases stack.len() - k,
    {
        if stack[k] == idx {
            return true;
        }
        k = k + 1;
    }
    false
}

/// Depth-first walk from file `idx`: its imports first, in declaration
/// order, one level deeper; then its own recipes. A file already on the
/// descent path is skipped, so import cycles end the descent.
fn parse_file(
    files: &Vec<LoadedFile>,
    idx: usize,
    depth: usize,
    state: &mut ParseState,
    stack: &mut Vec<usize>,
) -> (r: Result<(), MissingImport>)
    requires
        idx < files@.len(),
        old(state).wf(),
        all_declared(files@, entry_views(old(state).entries@)),
        visited_ok(files@, entry_views(old(state).entries@), old(state).visited@),
        closed(files@, old(state).visited@, old(stack)@),
        old(stack)@.no_duplicates(),
        forall|i: int| 0 <= i < old(stack)@.len() ==> old(stack)@[i] < files@.len(),
        depth == old(stack)@.len(),
    ensures
        final(state).wf(),
        all_declared(files@, entry_views(final(state).entries@)),
        r is Ok ==> final(stack)@ == old(stack)@,
        r is Ok ==> entry_views(final(state).entries@) == insert_all(
            entry_views(old(state).entries@),
            walk_file(files@, idx as int, old(stack)@),
        ),
        r is Ok ==> visited_ok(files@, entry_views(final(state).entries@), final(state).visited@),
        r is Ok ==> closed(files@, final(state).visited@, old(stack)@),
        r is Ok ==> old(state).visited@.subset_of(final(state).visited@),
        r is Ok ==> final(state).visited@.contains(idx as int) || on_path(old(stack)@, idx as int),
        match r {
            Err(e) => is_missing(files@, e),
            Ok(_) => true,
        },
        r is Ok && depth == 0 && !old(stack)@.contains(idx) ==> root_declared(
            entry_views(final(state).entries@),
            task_views(files@[idx as int].parsed.recipes@),
        ),
    decreases files@.len() - old(stack)@.len(),
{
    if on_stack(stack, idx) {
        proof {
            let s = choose|s: int| 0 <= s < stack@.len() && stack@[s] == idx;
            assert(stack@[s] as int == idx as int);
        }
        return Ok(());
    }
    let ghost entry_stack = stack@;
    let ghost entry_visited = state.visited@;
    let ghost entry_entries = entry_views(state.entries@);
    proof {
        assert(!on_path(stack@, idx as int)) by {
            if on_path(stack@, idx as int) {
                let s = choose|s: int| 0 <= s < stack@.len() && stack@[s] as int == idx as int;
                assert(stack@.contains(idx));
            }
        }
    }
    proof {
        if depth == 0 {
            assert(task_views(files@[idx as int].parsed.recipes@).subrange(0, 0) =~= Seq::<Task>::empty());
        }
        lemma_distinct_bound(stack@.push(idx), files.len());
    }
    stack.push(idx);
    proof {
        assert forall|g: int, i2: int| state.visited@.contains(g) && (#[trigger] target_of(files@, g, i2)) is Some implies state.visited@.contains(
            target_of(files@, g, i2)->0,
        ) || on_path(stack@, target_of(files@, g, i2)->0) by {
            let t = target_of(files@, g, i2)->0;
            if on_path(entry_stack, t) {
                let s = choose|s: int| 0 <= s < entry_stack.len() && entry_stack[s] as int == t;
                assert(stack@[s] as int == t);
            }
        }
    }
    let file = &files[idx];
    let imports = &file.parsed.imports;
    let mut i: usize = 0;
    while i < imports.len()
        invariant
            idx < files@.len(),
            file == files@[idx as int],
            imports == file.parsed.imports,
            i <= imports@.len(),
            state.wf(),
            all_declared(files@, entry_views(state.entries@)),
            visited_ok(files@, entry_views(state.entries@), state.visited@),
            closed(files@, state.visited@, stack@),
            entry_visited.subset_of(state.visited@),
            entry_visited == old(state).visited@,
            entry_entries == entry_views(old(state).entries@),
            entry_views(state.entries@) == insert_all(
                entry_entries,
                walk_imports(files@, idx as int, i as int, stack@),
            ),
            forall|i2: int|
                0 <= i2 < i && (#[trigger] target_of(files@, idx as int, i2)) is Some ==> state.visited@.contains(
                    target_of(files@, idx as int, i2)->0,
                ) || on_path(stack@, target_of(files@, idx as int, i2)->0),
            stack@ == entry_stack.push(idx),
            stack@.no_duplicates(),
            forall|j: int| 0 <= j < stack@.len() ==> stack@[j] < files@.len(),
            depth + 1 == stack@.len(),
            depth == old(stack)@.len(),
            entry_stack == old(stack)@,
            stack@.len() <= files@.len(),
        decreases imports.len() - i,
    {
        let target = if i < file.targets.len() {
            file.targets[i]
        } else {
            None
        };
        match target {
            Some(j) if j < files.len() => {
                assert(target_of(files@, idx as int, i as int) == Some(j as int));
                let ghost before = entry_views(state.entries@);
                match parse_file(files, j, depth + 1, state, stack) {
                    Ok(()) => {
                        proof {
                            lemma_insert_all_concat(
                                entry_entries,
                                walk_imports(files@, idx as int, i as int, stack@),
                                walk_file(files@, j as int, stack@),
                            );
                            assert(walk_imports(files@, idx as int, i + 1, stack@) == walk_imports(
                                files@,
                                idx as int,
                                i as int,
                                stack@,
                            ) + walk_file(files@, j as int, stack@));
                        }
                    },
                    Err(e) => {
                        return Err(e);
                    },
                }
            },
            _ => {
                if !imports[i].optional {
                    return Err(MissingImport { file: idx, import: i });
                }
                proof {
                    assert(target_of(files@, idx as int, i as int) is None);
                    assert(walk_imports(files@, idx as int, i + 1, stack@) =~= walk_imports(
                        files@,
                        idx as int,
                        i as int,
                        stack@,
                    ));
                }
            },
        }
        i = i + 1;
    }
    let ghost mid_visited = state.visited@;
    proof {
        assert forall|i2: int| (#[trigger] target_of(files@, idx as int, i2)) is Some implies mid_visited.contains(
            target_of(files@, idx as int, i2)->0,
        ) || on_path(stack@, target_of(files@, idx as int, i2)->0) by {
            assert(0 <= i2 < imports@.len());
        }
    }
    stack.pop();
    assert(stack@ =~= entry_stack);
    let recipes = &file.parsed.recipes;
    let ghost rs = task_views(recipes@);
    let ghost wi = walk_imports(files@, idx as int, imports@.len() as int, entry_stack.push(idx));
    let ghost own = own_decls(files@, idx as int, depth as nat);
    assert(wi + own.subrange(0, 0) =~= wi);
    let mut k: usize = 0;
    while k < recipes.len()
        invariant
            k <= recipes@.len(),
            rs == task_views(recipes@),
            recipes == files@[idx as int].parsed.recipes,
            idx < files@.len(),
            state.wf(),
            all_declared(files@, entry_views(state.entries@)),
            state.visited@ == mid_visited,
            own == own_decls(files@, idx as int, depth as nat),
            own.len() == recipes@.len(),
            entry_views(state.entries@) == insert_all(entry_entries, wi + own.subrange(0, k as int)),
            visited_ok(files@, entry_views(state.entries@), state.visited@),
            forall|k2: int|
                0 <= k2 < k ==> present(
                    entry_views(state.entries@),
                    (#[trigger] files@[idx as int].parsed.recipes@[k2])@.name,
                ),
            depth == 0 ==> root_declared(entry_views(state.entries@), rs.subrange(0, k as int)),
        decreases recipes.len() - k,
    {
        let t = copy_item(&recipes[k]);
        let ghost before = entry_views(state.entries@);
        let ghost pre = rs.subrange(0, k as int);
        let ghost cur = rs.subrange(0, k + 1);
        proof {
            assert(files@[idx as int].parsed.recipes@[k as int]@ == t@);
            lemma_insert_declared(files@, before, t@, depth as nat);
            lemma_insert_keeps_visited(files@, before, t@, depth as nat, state.visited@);
            assert forall|k2: int| 0 <= k2 < k + 1 implies present(
                insert_entry(before, t@, depth as nat),
                (#[trigger] files@[idx as int].parsed.recipes@[k2])@.name,
            ) by {
                lemma_insert_present(before, t@, depth as nat, files@[idx as int].parsed.recipes@[k2]@.name);
            }
        }
        state.insert(t, depth);
        proof {
            assert(own[k as int] == (Resolved { task: t@, depth: depth as nat }));
            assert((wi + own.subrange(0, k + 1)).drop_last() =~= wi + own.subrange(0, k as int));
            assert((wi + own.subrange(0, k + 1)).last() == own[k as int]);
            if depth == 0 {
                let after = entry_views(state.entries@);
                assert(cur.drop_last() =~= pre);
                assert(cur.last() == t@);
                assert forall|j: int| 0 <= j < cur.len() implies exists|p: int|
                    0 <= p < after.len() && (#[trigger] after[p]) == (Resolved {
                        task: last_named(cur, (#[trigger] cur[j]).name)->0,
                        depth: 0,
                    }) by {
                    if cur[j].name == t@.name {
                        lemma_insert_root(before, t@, Resolved { task: t@, depth: 0 });
                        let q = choose|q: int| 0 <= q < after.len() && after[q] == (Resolved { task: t@, depth: 0 });
                        assert(after[q] == (Resolved { task: last_named(cur, cur[j].name)->0, depth: 0 }));
                    } else {
                        assert(pre[j] == cur[j]);
                        lemma_last_named(pre, cur[j].name, j);
                        let e = Resolved { task: last_named(pre, pre[j].name)->0, depth: 0 };
                        assert(before.contains(e));
                        lemma_insert_root(before, t@, e);
                        let q = choose|q: int| 0 <= q < after.len() && after[q] == e;
                        assert(after[q] == (Resolved { task: last_named(cur, cur[j].name)->0, depth: 0 }));
                    }
                }
            }
        }
        k = k + 1;
    }
    assert(rs.subrange(0, k as int) =~= rs);
    assert(own.subrange(0, k as int) =~= own);
    assert(walk_file(files@, idx as int, entry_stack) == wi + own);
    state.visited = Ghost(state.visited@.insert(idx as int));
    proof {
        let v = state.visited@;
        let es = entry_views(state.entries@);
        assert(file_present(files@, es, idx as int));
        assert forall|g: int, i2: int| v.contains(g) && (#[trigger] target_of(files@, g, i2)) is Some implies v.contains(
            target_of(files@, g, i2)->0,
        ) || on_path(old(stack)@, target_of(files@, g, i2)->0) by {
            let t = target_of(files@, g, i2)->0;
            if on_path(entry_stack.push(idx), t) && !on_path(entry_stack, t) {
                let s = choose|s: int| 0 <= s < entry_stack.push(idx).len() && entry_stack.push(idx)[s] as int == t;
                if s < entry_stack.len() {
                    assert(entry_stack[s] as int == t);
                }
            }
        }
    }
    Ok(())
}

/// The first required import, in file order then import order, whose target
/// was not found.
fn first_missing(files: &Vec<LoadedFile>) -> (r: Option<MissingImport>)
    ensures
        match r {
            Some(e) => is_missing(files@, e),
            None => forall|e: MissingImport| !is_missing(files@, e),
        },
{
    let mut f: usize = 0;
    while f < files.len()
        invariant
            f <= files@.len(),
            forall|e: MissingImport| e.file < f ==> !is_missing(files@, e),
        decreases files.len() - f,
    {
        let file = &files[f];
        let mut i: usize = 0;
        while i < file.parsed.imports.len()
            invariant
                f < files@.len(),
                file == files@[f as int],
                i <= file.parsed.imports@.len(),
                forall|e: MissingImport| e.file < f ==> !is_missing(files@, e),
                forall|e: MissingImport| e.file == f && e.import < i ==> !is_missing(files@, e),
            decreases file.parsed.imports.len() - i,
        {
            let found = i < file.targets.len() && match file.targets[i] {
                Some(j) => j < files.len(),
                None => false,
            };
            if !found && !file.parsed.imports[i].optional {
                return Some(MissingImport { file: f, import: i });
            }
            i = i + 1;
        }
        f = f + 1;
    }
    None
}

/// The catalog of a justfile and everything it imports. `files[0]` is the
/// root file; each file's targets index into `files`. The declarations met
/// by the depth-first walk (`walk_file`) are entered in turn
/// (`insert_entry`): among tasks that share a name the one declared nearest
/// the root survives, and at equal depth the one met last; survivors are
/// listed in the order they were accepted.
/// Fails, naming one, exactly when a required import's target was not found.
pub fn parse_justfile_with_imports(files: &Vec<LoadedFile>) -> (r: Result<Vec<TaskItem>, MissingImport>)
    ensures
        match r {
            Ok(items) => {
                &&& forall|e: MissingImport| !is_missing(files@, e)
                &&& task_views(items@) == insert_all(Seq::empty(), walk_file(files@, 0, Seq::empty())).map_values(
                    |e: Resolved| e.task,
                )
                &&& forall|p: int| 0 <= p < items@.len() ==> declared(files@, (#[trigger] items@[p])@)
                &&& forall|f: int, k: nat, m: int|
                    #![trigger reach(files@, k, f), files@[f].parsed.recipes@[m]]
                    reach(files@, k, f) && 0 <= f < files@.len() && 0 <= m < files@[f].parsed.recipes@.len() ==> exists|p: int|
                        0 <= p < items@.len() && (#[trigger] items@[p]).name@ == files@[f].parsed.recipes@[m].name@
                &&& forall|i: int, j: int|
                    0 <= i < j < items@.len() ==> (#[trigger] items@[i]).name@ != (
                    #[trigger] items@[j]).name@
                &&& files@.len() > 0 ==> forall|k: int|
                    0 <= k < files@[0].parsed.recipes@.len() ==> exists|p: int|
                        0 <= p < items@.len() && (#[trigger] items@[p])@ == last_named(
                            task_views(files@[0].parsed.recipes@),
                            (#[trigger] files@[0].parsed.recipes@[k])@.name,
                        )->0
            },
            Err(e) => is_missing(files@, e),
        },
{
    if let Some(e) = first_missing(files) {
        return Err(e);
    }
    let mut state = ParseState::new();
    if files.len() == 0 {
        return Ok(Vec::new());
    }
    assert(entry_views(state.entries@) =~= Seq::<Resolved>::empty());
    let mut stack: Vec<usize> = Vec::new();
    assert(visited_ok(files@, entry_views(state.entries@), state.visited@));
    match parse_file(files, 0, 0, &mut state, &mut stack) {
        Ok(()) => {
            let ghost es = entry_views(state.entries@);
            let items = state.into_items();
            proof {
                let rs = task_views(files@[0].parsed.recipes@);
                assert(task_views(items@).len() == items@.len());
                assert(state.visited@.contains(0));
                assert(closed(files@, state.visited@, Seq::empty())) by {
                    assert(stack@ =~= Seq::<usize>::empty());
                }
                assert forall|f: int, k: nat, m: int|
                    #![trigger reach(files@, k, f), files@[f].parsed.recipes@[m]]
                    reach(files@, k, f) && 0 <= f < files@.len() && 0 <= m < files@[f].parsed.recipes@.len() implies exists|p: int|
                        0 <= p < items@.len() && (#[trigger] items@[p]).name@ == files@[f].parsed.recipes@[m].name@ by {
                    lemma_reach_visited(files@, state.visited@, k, f);
                    assert(file_present(files@, es, f));
                    assert(present(es, files@[f].parsed.recipes@[m]@.name));
                    let p = choose|p: int| 0 <= p < es.len() && (#[trigger] es[p]).task.name == files@[f].parsed.recipes@[m]@.name;
                    assert(task_views(items@)[p] == es[p].task);
                }
                assert forall|p: int| 0 <= p < items@.len() implies declared(files@, (#[trigger] items@[p])@) by {
                    assert(task_views(items@)[p] == es[p].task);
                }
                assert forall|i: int, j: int| 0 <= i < j < items@.len() implies (
                #[trigger] items@[i]).name@ != (#[trigger] items@[j]).name@ by {
                    assert(task_views(items@)[i] == es[i].task);
                    assert(task_views(items@)[j] == es[j].task);
                }
                assert forall|k: int| 0 <= k < files@[0].parsed.recipes@.len() implies exists|p: int|
                    0 <= p < items@.len() && (#[trigger] items@[p])@ == last_named(
                        rs,
                        (#[trigger] files@[0].parsed.recipes@[k])@.name,
                    )->0 by {
                    assert(rs[k] == files@[0].parsed.recipes@[k]@);
                    let p = choose|p: int| 0 <= p < es.len() && (#[trigger] es[p]) == (Resolved {
                        task: last_named(rs, rs[k].name)->0,
                        depth: 0,
                    });
                    assert(task_views(items@)[p] == es[p].task);
                    assert(items@[p]@ == last_named(rs, rs[k].name)->0);
                }
            }
            Ok(items)
        },
        Err(e) => Err(e),
    }
}

/// Every listed task has a name.
pub proof fn lemma_just_list_named(ls: Seq<Seq<char>>)
    ensures
        named(just_list(ls)),
    decreases ls.len(),
{
    if ls.len() > 0 {
        lemma_just_list_named(ls.drop_last());
    }
}

/// The directory part of a file path, as `Path::parent` gives it: empty
/// for a bare name, `/` for a file in the root.
pub open spec fn parent_dir(base: Seq<char>) -> Seq<char> {
    let k = last_slash(base, base.len() as int);
    if k == 0 {
        Seq::empty()
    } else if k == 1 {
        seq!['/']
    } else {
        base.subrange(0, k - 1)
    }
}

/// An import path with a leading `~/` taken from the home directory, when
/// one is known.
pub open spec fn expand_home(raw: Seq<char>, home: Option<Seq<char>>) -> Seq<char> {
    match home {
        Some(h) => if starts(raw, seq!['~', '/']) {
            crate::text::join_path(h, raw.subrange(2, raw.len() as int))
        } else {
            raw
        },
        None => raw,
    }
}

/// Where an import of the file at `base` points: an absolute path as it
/// is, a relative one against the importing file's directory.
pub open spec fn import_target(base: Seq<char>, raw: Seq<char>, home: Option<Seq<char>>) -> Seq<char> {
    let e = expand_home(raw, home);
    if e.len() > 0 && e[0] == '/' {
        e
    } else {
        crate::text::join_path(parent_dir(base), e)
    }
}

/// The path that import `raw` of the justfile at `base` names.
pub fn resolve_import(base: &str, raw: &str, home: Option<&str>) -> (r: String)
    ensures
        r@ == import_target(
            base@,
            raw@,
            match home {
                Some(h) => Some(h@),
                None => None,
            },
        ),
{
    proof {
        reveal_strlit("~/");
        reveal_strlit("/");
        assert("~/"@ =~= seq!['~', '/']);
        assert("/"@ =~= seq!['/']);
    }
    let expanded = match home {
        Some(h) => if starts_with(raw, "~/") {
            crate::text::join(h, raw.substring_char(2, raw.unicode_len()))
        } else {
            raw.to_string()
        },
        None => raw.to_string(),
    };
    if expanded.unicode_len() > 0 && expanded.as_str().get_char(0) == '/' {
        return expanded;
    }
    let n = base.unicode_len();
    let mut k = n;
    while k > 0 && base.get_char(k - 1) != '/'
        invariant
            k <= base@.len(),
            n == base@.len(),
            last_slash(base@, n as int) == last_slash(base@, k as int),
        decreases k,
    {
        k = k - 1;
    }
    let dir: &str = if k == 0 {
        ""
    } else if k == 1 {
        "/"
    } else {
        base.substring_char(0, k - 1)
    };
    proof {
        reveal_strlit("");
        assert(dir@ =~= parent_dir(base@));
    }
    crate::text::join(dir, expanded.as_str())
}

} // verus!
