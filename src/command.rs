//! Command lines as text: quoting for preview and for shell history, and
//! the line a shell history file gets.
use vstd::prelude::*;

use crate::detect::{command_of, runner_command, Runner};
use crate::task_args::str_eq;
use crate::text::{starts, starts_with, has_char, has_char_exec, trim, trim_of, views, ws, is_ws};

verus! {

/// `s` with each `'` written as `rep`.
pub open spec fn replace_quotes(s: Seq<char>, rep: Seq<char>) -> Seq<char>
    decreases s.len(),
{
    if s.len() == 0 {
        Seq::empty()
    } else {
        replace_quotes(s.drop_last(), rep) + if s.last() == '\'' {
            rep
        } else {
            seq![s.last()]
        }
    }
}

/// `s` in single quotes, each inner `'` written as `rep`.
pub open spec fn single_quoted(s: Seq<char>, rep: Seq<char>) -> Seq<char> {
    seq!['\''] + replace_quotes(s, rep) + seq!['\'']
}

fn quote_with(value: &str, rep: &str) -> (r: String)
    ensures
        r@ == single_quoted(value@, rep@),
{
    let n = value.unicode_len();
    let mut out = String::from_str("'");
    proof {
        reveal_strlit("'");
    }
    let mut start: usize = 0;
    let mut i: usize = 0;
    assert(value@.subrange(0, 0) =~= Seq::<char>::empty());
    while i < n
        invariant
            n == value@.len(),
            start <= i <= n,
            seq!['\''] + replace_quotes(value@.subrange(0, i as int), rep@) == out@
                + value@.subrange(start as int, i as int),
        decreases n - i,
    {
        let ghost pre = value@.subrange(0, i as int);
        let ghost c = value@[i as int];
        let ghost old_out = out@;
        let ghost mid = value@.subrange(start as int, i as int);
        assert(value@.subrange(0, i + 1).drop_last() =~= pre);
        assert(value@.subrange(0, i + 1).last() == c);
        assert(replace_quotes(value@.subrange(0, i + 1), rep@) == replace_quotes(pre, rep@) + if c
            == '\'' {
            rep@
        } else {
            seq![c]
        });
        if value.get_char(i) == '\'' {
            out.append(value.substring_char(start, i));
            out.append(rep);
            assert(out@ =~= old_out + mid + rep@);
            assert(seq!['\''] + replace_quotes(value@.subrange(0, i + 1), rep@) =~= (seq!['\'']
                + replace_quotes(pre, rep@)) + rep@);
            start = i + 1;
            assert(value@.subrange(start as int, i + 1) =~= Seq::<char>::empty());
            assert(seq!['\''] + replace_quotes(value@.subrange(0, i + 1), rep@) =~= out@
                + value@.subrange(start as int, i + 1));
        } else {
            assert(value@.subrange(start as int, i + 1) =~= mid + seq![c]);
            assert(seq!['\''] + replace_quotes(value@.subrange(0, i + 1), rep@) =~= (seq!['\'']
                + replace_quotes(pre, rep@)) + seq![c]);
            assert(seq!['\''] + replace_quotes(value@.subrange(0, i + 1), rep@) =~= out@
                + value@.subrange(start as int, i + 1));
        }
        i = i + 1;
    }
    out.append(value.substring_char(start, n));
    out.append("'");
    assert(value@.subrange(0, n as int) =~= value@);
    out
}

/// A character that the shell would read specially in an unquoted word.
pub open spec fn shell_special(c: char) -> bool {
    ws(c) || c == '\'' || c == '"' || c == '\\' || c == '$' || c == '`' || c == '!' || c == '&'
        || c == '|' || c == ';' || c == '<' || c == '>'
}

/// A preview word: `''` when empty, single-quoted (inner `'` as `'\''`)
/// when it holds a special character, else as it is.
pub open spec fn preview_word(s: Seq<char>) -> Seq<char> {
    if s.len() == 0 {
        seq!['\'', '\'']
    } else if exists|i: int| 0 <= i < s.len() && shell_special(#[trigger] s[i]) {
        single_quoted(s, seq!['\'', '\\', '\'', '\''])
    } else {
        s
    }
}

fn is_shell_special(c: char) -> (r: bool)
    ensures
        r == shell_special(c),
{
    is_ws(c) || c == '\'' || c == '"' || c == '\\' || c == '$' || c == '`' || c == '!' || c == '&'
        || c == '|' || c == ';' || c == '<' || c == '>'
}

/// Quotes a word for a command preview.
pub fn quote_shell_arg(value: &str) -> (r: String)
    ensures
        r@ == preview_word(value@),
{
    proof {
        reveal_strlit("''");
        reveal_strlit("'\\''");
        assert("''"@ =~= seq!['\'', '\'']);
        assert("'\\''"@ =~= seq!['\'', '\\', '\'', '\'']);
    }
    let n = value.unicode_len();
    if n == 0 {
        return String::from_str("''");
    }
    let mut i: usize = 0;
    while i < n
        invariant
            n == value@.len(),
            i <= n,
            forall|j: int| 0 <= j < i ==> !shell_special(#[trigger] value@[j]),
        decreases n - i,
    {
        if is_shell_special(value.get_char(i)) {
            assert(shell_special(value@[i as int]));
            proof {
                reveal_strlit("'\\''");
                assert("'\\''"@ =~= seq!['\'', '\\', '\'', '\'']);
            }
            return quote_with(value, "'\\''");
        }
        i = i + 1;
    }
    value.to_string()
}

/// A character that stays unquoted in a history line.
pub open spec fn plain_char(c: char) -> bool {
    ('a' <= c && c <= 'z') || ('A' <= c && c <= 'Z') || ('0' <= c && c <= '9') || c == '@' || c
        == '%' || c == '_' || c == '+' || c == '=' || c == ':' || c == ',' || c == '.' || c == '/'
        || c == '-'
}

/// A history word: `''` when empty, as it is when every character is
/// plain, else single-quoted with each inner `'` as `'"'"'`.
pub open spec fn history_word(s: Seq<char>) -> Seq<char> {
    if s.len() == 0 {
        seq!['\'', '\'']
    } else if forall|i: int| 0 <= i < s.len() ==> plain_char(#[trigger] s[i]) {
        s
    } else {
        single_quoted(s, seq!['\'', '"', '\'', '"', '\''])
    }
}

fn is_plain_char(c: char) -> (r: bool)
    ensures
        r == plain_char(c),
{
    ('a' <= c && c <= 'z') || ('A' <= c && c <= 'Z') || ('0' <= c && c <= '9') || c == '@' || c
        == '%' || c == '_' || c == '+' || c == '=' || c == ':' || c == ',' || c == '.' || c == '/'
        || c == '-'
}

/// Quotes a word for a shell history line.
pub fn shell_escape(arg: &str) -> (r: String)
    ensures
        r@ == history_word(arg@),
{
    proof {
        reveal_strlit("''");
        reveal_strlit("'\"'\"'");
        assert("''"@ =~= seq!['\'', '\'']);
        assert("'\"'\"'"@ =~= seq!['\'', '"', '\'', '"', '\'']);
    }
    let n = arg.unicode_len();
    if n == 0 {
        return String::from_str("''");
    }
    let mut i: usize = 0;
    while i < n
        invariant
            n == arg@.len(),
            i <= n,
            forall|j: int| 0 <= j < i ==> plain_char(#[trigger] arg@[j]),
        decreases n - i,
    {
        if !is_plain_char(arg.get_char(i)) {
            assert(!plain_char(arg@[i as int]));
            proof {
                reveal_strlit("'\"'\"'");
                assert("'\"'\"'"@ =~= seq!['\'', '"', '\'', '"', '\'']);
            }
            return quote_with(arg, "'\"'\"'");
        }
        i = i + 1;
    }
    arg.to_string()
}

/// Words joined by single spaces.
pub open spec fn spaced(word_list: Seq<Seq<char>>) -> Seq<char>
    decreases word_list.len(),
{
    if word_list.len() == 0 {
        Seq::empty()
    } else if word_list.len() == 1 {
        word_list[0]
    } else {
        spaced(word_list.drop_last()) + seq![' '] + word_list.last()
    }
}

fn append_word(out: &mut String, count: usize, word: &str)
    ensures
        final(out)@ == if count == 0 {
            old(out)@ + word@
        } else {
            old(out)@ + seq![' '] + word@
        },
{
    if count > 0 {
        out.append(" ");
        proof {
            reveal_strlit(" ");
        }
    }
    out.append(word);
}

/// The words a preview shows: the runner's program, its subcommand if it
/// has one, the task, then the arguments.
pub open spec fn preview_words(runner: Runner, task: Seq<char>, passthrough: Seq<Seq<char>>) -> Seq<
    Seq<char>,
> {
    let head = seq![command_of(runner)] + if runner == Runner::CargoMake {
        seq!["make"@]
    } else if runner == Runner::Mise {
        seq!["run"@]
    } else {
        Seq::empty()
    };
    head + seq![task] + passthrough
}

/// The command line a task run executes, quoted for display.
pub fn preview_command(runner: Runner, task: &str, passthrough: &Vec<String>) -> (r: String)
    ensures
        r@ == spaced(
            preview_words(runner, task@, views(passthrough@)).map_values(
                |w: Seq<char>| preview_word(w),
            ),
        ),
{
    let mut parts: Vec<String> = Vec::new();
    parts.push(runner_command(runner).to_string());
    match runner {
        Runner::CargoMake => parts.push("make".to_string()),
        Runner::Mise => parts.push("run".to_string()),
        _ => {},
    }
    parts.push(task.to_string());
    let mut k: usize = 0;
    let ghost head = views(parts@);
    while k < passthrough.len()
        invariant
            k <= passthrough@.len(),
            views(parts@) == head + views(passthrough@).subrange(0, k as int),
        decreases passthrough.len() - k,
    {
        let ghost before = views(parts@);
        parts.push(passthrough[k].clone());
        assert(views(parts@) =~= before.push(passthrough@[k as int]@));
        assert(views(passthrough@).subrange(0, k + 1) =~= views(passthrough@).subrange(0, k as int).push(passthrough@[k as int]@));
        k = k + 1;
    }
    assert(views(parts@) =~= preview_words(runner, task@, views(passthrough@)));
    let ghost word_list = views(parts@);
    let mut out = String::new();
    let mut j: usize = 0;
    assert(word_list.subrange(0, 0).map_values(|w: Seq<char>| preview_word(w)) =~= Seq::<Seq<char>>::empty());
    while j < parts.len()
        invariant
            j <= parts@.len(),
            word_list == views(parts@),
            out@ == spaced(word_list.subrange(0, j as int).map_values(|w: Seq<char>| preview_word(w))),
        decreases parts.len() - j,
    {
        let q = quote_shell_arg(parts[j].as_str());
        append_word(&mut out, j, q.as_str());
        let ghost m = word_list.subrange(0, j + 1).map_values(|w: Seq<char>| preview_word(w));
        assert(m.drop_last() =~= word_list.subrange(0, j as int).map_values(|w: Seq<char>| preview_word(w)));
        j = j + 1;
    }
    assert(word_list.subrange(0, j as int) =~= word_list);
    out
}

/// A history word for one argument, with line breaks turned to spaces.
pub open spec fn sanitized(s: Seq<char>) -> Seq<char> {
    s.map_values(|c: char| if c == '\n' || c == '\r' { ' ' } else { c })
}

fn sanitize_arg(value: &str) -> (r: String)
    ensures
        r@ == sanitized(value@),
{
    let n = value.unicode_len();
    let mut out = String::new();
    let mut start: usize = 0;
    let mut i: usize = 0;
    while i < n
        invariant
            n == value@.len(),
            start <= i <= n,
            sanitized(value@.subrange(0, i as int)) == out@ + value@.subrange(start as int, i as int),
        decreases n - i,
    {
        let c = value.get_char(i);
        if c == '\n' || c == '\r' {
            out.append(value.substring_char(start, i));
            out.append(" ");
            proof {
                reveal_strlit(" ");
            }
            start = i + 1;
            assert(value@.subrange(start as int, i + 1) =~= Seq::<char>::empty());
        }
        assert(sanitized(value@.subrange(0, i + 1)) =~= sanitized(value@.subrange(0, i as int)).push(
            if c == '\n' || c == '\r' {
                ' '
            } else {
                c
            },
        ));
        i = i + 1;
    }
    out.append(value.substring_char(start, n));
    assert(value@.subrange(0, n as int) =~= value@);
    out
}

/// The line a program and its arguments leave in a shell history.
pub fn command_to_shell_string(program: &str, args: &Vec<String>) -> (r: String)
    ensures
        r@ == spaced(
            (seq![program@] + views(args@)).map_values(|w: Seq<char>| history_word(sanitized(w))),
        ),
{
    let ghost word_list = seq![program@] + views(args@);
    let first = shell_escape(sanitize_arg(program).as_str());
    let mut out = first;
    assert(word_list.subrange(0, 1).map_values(|w: Seq<char>| history_word(sanitized(w))) =~= seq![out@]);
    let mut k: usize = 0;
    while k < args.len()
        invariant
            k <= args@.len(),
            word_list == seq![program@] + views(args@),
            out@ == spaced(
                word_list.subrange(0, k + 1).map_values(|w: Seq<char>| history_word(sanitized(w))),
            ),
        decreases args.len() - k,
    {
        let q = shell_escape(sanitize_arg(args[k].as_str()).as_str());
        append_word(&mut out, 1, q.as_str());
        let ghost m = word_list.subrange(0, k + 2).map_values(|w: Seq<char>| history_word(sanitized(w)));
        assert(m.drop_last() =~= word_list.subrange(0, k + 1).map_values(
            |w: Seq<char>| history_word(sanitized(w)),
        ));
        assert(word_list[k + 1] == args@[k as int]@);
        k = k + 1;
    }
    assert(word_list.subrange(0, k + 1) =~= word_list);
    out
}

#[derive(Debug, Clone, Copy, PartialEq, Eq, Structural)]
pub enum HistoryFormat {
    Plain,
    ZshExtended,
}

/// Decimal digits of `n`.
pub open spec fn decimal(n: nat) -> Seq<char>
    decreases n,
{
    if n < 10 {
        seq![digit(n)]
    } else {
        decimal(n / 10) + seq![digit(n % 10)]
    }
}

pub open spec fn digit(d: nat) -> char {
    if d == 0 { '0' } else if d == 1 { '1' } else if d == 2 { '2' } else if d == 3 { '3' }
    else if d == 4 { '4' } else if d == 5 { '5' } else if d == 6 { '6' } else if d == 7 { '7' }
    else if d == 8 { '8' } else { '9' }
}

fn digit_str(d: u64) -> (r: &'static str)
    requires
        d < 10,
    ensures
        r@ == seq![digit(d as nat)],
{
    proof {
        reveal_strlit("0");
        reveal_strlit("1");
        reveal_strlit("2");
        reveal_strlit("3");
        reveal_strlit("4");
        reveal_strlit("5");
        reveal_strlit("6");
        reveal_strlit("7");
        reveal_strlit("8");
        reveal_strlit("9");
    }
    let r = if d == 0 { "0" } else if d == 1 { "1" } else if d == 2 { "2" } else if d == 3 { "3" }
    else if d == 4 { "4" } else if d == 5 { "5" } else if d == 6 { "6" } else if d == 7 { "7" }
    else if d == 8 { "8" } else { "9" };
    assert(r@ =~= seq![digit(d as nat)]);
    r
}

/// `n` written in decimal.
pub fn decimal_string(n: u64) -> (r: String)
    ensures
        r@ == decimal(n as nat),
    decreases n,
{
    if n < 10 {
        String::from_str(digit_str(n))
    } else {
        let mut s = decimal_string(n / 10);
        s.append(digit_str(n % 10));
        s
    }
}

/// The history line for a command: as it is for a plain history, or with
/// the `: <time>:0;` prefix of zsh's extended history.
pub open spec fn history_line(format: HistoryFormat, command_line: Seq<char>, unix_time: nat) -> Seq<char> {
    match format {
        HistoryFormat::Plain => command_line + seq!['\n'],
        HistoryFormat::ZshExtended => seq![':', ' '] + decimal(unix_time) + seq![':', '0', ';']
            + command_line + seq!['\n'],
    }
}

pub fn format_history_entry(format: HistoryFormat, command_line: &str, unix_time: u64) -> (r: String)
    ensures
        r@ == history_line(format, command_line@, unix_time as nat),
{
    proof {
        reveal_strlit("\n");
        reveal_strlit(": ");
        reveal_strlit(":0;");
    }
    match format {
        HistoryFormat::Plain => {
            let mut s = command_line.to_string();
            s.append("\n");
            s
        },
        HistoryFormat::ZshExtended => {
            let mut s = String::from_str(": ");
            let t = decimal_string(unix_time);
            s.append(t.as_str());
            s.append(":0;");
            s.append(command_line);
            s.append("\n");
            assert(s@ =~= history_line(format, command_line@, unix_time as nat));
            s
        },
    }
}

/// Index just past the last character before `j` that is not `/` (or 0).
pub open spec fn drop_slashes(s: Seq<char>, j: int) -> int
    decreases j,
{
    if j <= 0 {
        0
    } else if s[j - 1] == '/' {
        drop_slashes(s, j - 1)
    } else {
        j
    }
}

/// Index just past the last `/` before `j` (or 0).
pub open spec fn last_slash(s: Seq<char>, j: int) -> int
    decreases j,
{
    if j <= 0 {
        0
    } else if s[j - 1] == '/' {
        j
    } else {
        last_slash(s, j - 1)
    }
}

/// The last component of a path: the text after its last `/`, once
/// trailing `/`s are dropped.
pub open spec fn base_name(p: Seq<char>) -> Seq<char> {
    let e = drop_slashes(p, p.len() as int);
    p.subrange(last_slash(p, e), e)
}

fn base_name_exec(p: &str) -> (r: &str)
    ensures
        r@ == base_name(p@),
{
    let mut e = p.unicode_len();
    while e > 0 && p.get_char(e - 1) == '/'
        invariant
            e <= p@.len(),
            drop_slashes(p@, p@.len() as int) == drop_slashes(p@, e as int),
        decreases e,
    {
        e = e - 1;
    }
    let mut a = e;
    while a > 0 && p.get_char(a - 1) != '/'
        invariant
            a <= e <= p@.len(),
            last_slash(p@, e as int) == last_slash(p@, a as int),
        decreases a,
    {
        a = a - 1;
    }
    p.substring_char(a, e)
}

/// How many leading lines of a history file are looked at.
pub const HISTORY_PROBE_LINES: usize = 20;

/// Whether the first non-blank line at or after `k`, among the probed
/// lines, looks like zsh's extended history (`: <time>:0;<command>`).
pub open spec fn extended_from(ls: Seq<Seq<char>>, k: int) -> bool
    decreases ls.len() - k,
{
    if k >= ls.len() || k >= HISTORY_PROBE_LINES {
        false
    } else if trim_of(ls[k]).len() == 0 {
        extended_from(ls, k + 1)
    } else {
        starts(trim_of(ls[k]), seq![':', ' ']) && has_char(trim_of(ls[k]), ';')
    }
}

/// The history format to write: zsh's extended format when the shell is
/// zsh and the history file's leading lines are in that format.
pub open spec fn history_format_of(shell: Option<Seq<char>>, lines: Seq<Seq<char>>) -> HistoryFormat {
    match shell {
        Some(sh) => if base_name(sh) == "zsh"@ && extended_from(lines, 0) {
            HistoryFormat::ZshExtended
        } else {
            HistoryFormat::Plain
        },
        None => HistoryFormat::Plain,
    }
}

/// The history format for `shell`, given the leading lines of its history file.
pub fn history_format(shell: Option<&str>, histfile_lines: &Vec<String>) -> (r: HistoryFormat)
    ensures
        r == history_format_of(
            match shell {
                Some(s) => Some(s@),
                None => None,
            },
            views(histfile_lines@),
        ),
{
    let sh = match shell {
        Some(s) => s,
        None => {
            return HistoryFormat::Plain;
        },
    };
    if !str_eq(base_name_exec(sh), "zsh") {
        return HistoryFormat::Plain;
    }
    let ghost ls = views(histfile_lines@);
    let mut k: usize = 0;
    proof {
        reveal_strlit(": ");
    }
    while k < histfile_lines.len() && k < HISTORY_PROBE_LINES
        invariant
            k <= histfile_lines@.len(),
            ls == views(histfile_lines@),
            extended_from(ls, 0) == extended_from(ls, k as int),
            base_name(sh@) == "zsh"@,
            shell == Some(sh),
        decreases histfile_lines.len() - k,
    {
        let t = trim(histfile_lines[k].as_str());
        assert(ls[k as int] == histfile_lines@[k as int]@);
        if t.unicode_len() > 0 {
            proof {
                reveal_strlit(": ");
                assert(": "@ =~= seq![':', ' ']);
            }
            if starts_with(t, ": ") && has_char_exec(t, ';') {
                return HistoryFormat::ZshExtended;
            } else {
                return HistoryFormat::Plain;
            }
        }
        k = k + 1;
    }
    HistoryFormat::Plain
}

} // verus!
