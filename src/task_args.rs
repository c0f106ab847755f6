//! Required parameters of a task, read from its declaration header with a
//! scanner that honours quotes, escapes and bracket nesting.
use vstd::prelude::*;

use crate::detect::{Detection, Runner};
use crate::text::{
    is_ws, lines_of, split_lines, starts, trim, trim_of,
    views, ws,
};

verus! {

#[derive(Debug, Clone, Copy, PartialEq, Eq, Structural)]
pub enum Quote {
    Single,
    Double,
    Backtick,
}

/// Scanner state: the open quote, a pending escape and three nesting depths.
#[derive(Debug, Clone, Copy)]
pub struct ParseState {
    pub quote: Option<Quote>,
    pub escaped: bool,
    pub paren: usize,
    pub bracket: usize,
    pub brace: usize,
}

/// The scanner state as mathematics, with unbounded depths.
pub struct Scan {
    pub quote: Option<Quote>,
    pub escaped: bool,
    pub paren: nat,
    pub bracket: nat,
    pub brace: nat,
}

impl View for ParseState {
    type V = Scan;

    open spec fn view(&self) -> Scan {
        Scan {
            quote: self.quote,
            escaped: self.escaped,
            paren: self.paren as nat,
            bracket: self.bracket as nat,
            brace: self.brace as nat,
        }
    }
}

pub open spec fn scan_init() -> Scan {
    Scan { quote: None, escaped: false, paren: 0, bracket: 0, brace: 0 }
}

pub open spec fn closes(q: Quote, c: char) -> bool {
    match q {
        Quote::Single => c == '\'',
        Quote::Double => c == '"',
        Quote::Backtick => c == '`',
    }
}

pub open spec fn dec(n: nat) -> nat {
    if n == 0 {
        0
    } else {
        (n - 1) as nat
    }
}

/// One character's effect on the scanner.
pub open spec fn step(m: Scan, c: char) -> Scan {
    match m.quote {
        Some(q) => {
            if m.escaped {
                Scan { escaped: false, ..m }
            } else if c == '\\' {
                Scan { escaped: true, ..m }
            } else if closes(q, c) {
                Scan { quote: None, ..m }
            } else {
                m
            }
        },
        None => {
            if c == '\'' {
                Scan { quote: Some(Quote::Single), ..m }
            } else if c == '"' {
                Scan { quote: Some(Quote::Double), ..m }
            } else if c == '`' {
                Scan { quote: Some(Quote::Backtick), ..m }
            } else if c == '(' {
                Scan { paren: m.paren + 1, ..m }
            } else if c == ')' {
                Scan { paren: dec(m.paren), ..m }
            } else if c == '[' {
                Scan { bracket: m.bracket + 1, ..m }
            } else if c == ']' {
                Scan { bracket: dec(m.bracket), ..m }
            } else if c == '{' {
                Scan { brace: m.brace + 1, ..m }
            } else if c == '}' {
                Scan { brace: dec(m.brace), ..m }
            } else {
                m
            }
        },
    }
}

/// The scanner state after reading the first `n` characters of `s`.
pub open spec fn state_at(s: Seq<char>, n: int) -> Scan
    decreases n,
{
    if n <= 0 {
        scan_init()
    } else {
        step(state_at(s, n - 1), s[n - 1])
    }
}

/// Outside every quote and bracket.
pub open spec fn top(m: Scan) -> bool {
    m.quote is None && m.paren == 0 && m.bracket == 0 && m.brace == 0
}

/// First index at or after `i` where `c` stands at top level (or the length).
pub open spec fn top_find_from(s: Seq<char>, c: char, i: int) -> int
    decreases s.len() - i,
{
    if i >= s.len() {
        s.len() as int
    } else if top(state_at(s, i)) && s[i] == c {
        i
    } else {
        top_find_from(s, c, i + 1)
    }
}

pub proof fn lemma_top_find(s: Seq<char>, c: char, i: int)
    requires
        0 <= i <= s.len(),
    ensures
        i <= top_find_from(s, c, i) <= s.len(),
        top_find_from(s, c, i) < s.len() ==> s[top_find_from(s, c, i)] == c,
    decreases s.len() - i,
{
    if i < s.len() && !(top(state_at(s, i)) && s[i] == c) {
        lemma_top_find(s, c, i + 1);
    }
}

pub open spec fn has_top_char(s: Seq<char>, c: char) -> bool {
    top_find_from(s, c, 0) < s.len()
}

/// Index `i` of `s` is whitespace at top level.
pub open spec fn is_sep(s: Seq<char>, i: int) -> bool {
    top(state_at(s, i)) && ws(s[i])
}

/// Words found among the first `n` characters, and the start of an open word.
pub open spec fn split_upto(s: Seq<char>, n: int) -> (Seq<Seq<char>>, Option<int>)
    decreases n,
{
    if n <= 0 {
        (Seq::empty(), None)
    } else {
        let (parts, start) = split_upto(s, n - 1);
        if is_sep(s, n - 1) {
            match start {
                Some(a) => (parts.push(s.subrange(a, n - 1)), None),
                None => (parts, None),
            }
        } else {
            match start {
                Some(a) => (parts, Some(a)),
                None => (parts, Some(n - 1)),
            }
        }
    }
}

/// The words of `s` split at top-level whitespace.
pub open spec fn top_words(s: Seq<char>) -> Seq<Seq<char>> {
    let (parts, start) = split_upto(s, s.len() as int);
    match start {
        Some(a) => parts.push(s.subrange(a, s.len() as int)),
        None => parts,
    }
}

/// Index of the first character at or after `i` that `strip` does not remove.
pub open spec fn skip_lead(s: Seq<char>, i: int, sigils: bool) -> int
    decreases s.len() - i,
{
    if i >= s.len() {
        s.len() as int
    } else if (sigils && (s[i] == '$' || s[i] == '+' || s[i] == '*')) || (!sigils && s[i] == '@') {
        skip_lead(s, i + 1, sigils)
    } else {
        i
    }
}

/// `s` without its leading `@`s (`sigils` false) or `$`, `+`, `*`s (`sigils` true).
pub open spec fn strip_lead(s: Seq<char>, sigils: bool) -> Seq<char> {
    s.subrange(skip_lead(s, 0, sigils), s.len() as int)
}

pub open spec fn back_commas(s: Seq<char>, j: int) -> int
    decreases j,
{
    if j <= 0 {
        0
    } else if s[j - 1] == ',' {
        back_commas(s, j - 1)
    } else {
        j
    }
}

pub open spec fn strip_commas(s: Seq<char>) -> Seq<char> {
    s.subrange(0, back_commas(s, s.len() as int))
}

pub open spec fn ascii_alpha(c: char) -> bool {
    ('a' <= c && c <= 'z') || ('A' <= c && c <= 'Z')
}

pub open spec fn ascii_alnum(c: char) -> bool {
    ascii_alpha(c) || ('0' <= c && c <= '9')
}

/// A parameter name: a letter or `_`, then letters, digits, `_` or `-`.
pub open spec fn identifier(v: Seq<char>) -> bool {
    v.len() > 0 && (v[0] == '_' || ascii_alpha(v[0])) && forall|k: int|
        1 <= k < v.len() ==> (v[k] == '_' || v[k] == '-' || ascii_alnum(#[trigger] v[k]))
}

/// The name a parameter word contributes to the required list, if any.
pub open spec fn arg_name(raw: Seq<char>) -> Option<Seq<char>> {
    let token = strip_commas(raw);
    if token.len() == 0 || token[0] == '*' || has_top_char(token, '=') {
        None
    } else {
        let clean = strip_lead(token, true);
        if identifier(clean) {
            Some(clean)
        } else {
            None
        }
    }
}

/// The names that parameter words contribute, in order.
pub open spec fn arg_names(ps: Seq<Seq<char>>) -> Seq<Seq<char>>
    decreases ps.len(),
{
    if ps.len() == 0 {
        Seq::empty()
    } else {
        let rest = arg_names(ps.drop_last());
        match arg_name(ps.last()) {
            Some(n) => rest.push(n),
            None => rest,
        }
    }
}

/// The header text before its top-level colon, when `line` is a task header.
pub open spec fn header_left(line: Seq<char>) -> Option<Seq<char>> {
    let t = trim_of(line);
    let h = top_find_from(t, ':', 0);
    if line.len() > 0 && (line[0] == ' ' || line[0] == '\t') {
        None
    } else if t.len() == 0 || t[0] == '#' || h >= t.len() {
        None
    } else if starts(t.subrange(h, t.len() as int), seq![':', '=']) {
        None
    } else {
        let left = trim_of(t.subrange(0, h));
        if left.len() == 0 || top_words(left).len() == 0 {
            None
        } else {
            Some(left)
        }
    }
}

/// The task name a header declares: its first word without leading `@`s.
pub open spec fn header_name(line: Seq<char>) -> Option<Seq<char>> {
    match header_left(line) {
        Some(left) => Some(strip_lead(top_words(left)[0], false)),
        None => None,
    }
}

/// Required parameters of `task` when `line` is its header; `None` otherwise.
pub open spec fn header_required(line: Seq<char>, task: Seq<char>) -> Option<Seq<Seq<char>>> {
    match header_left(line) {
        Some(left) => {
            if strip_lead(top_words(left)[0], false) == task {
                Some(arg_names(top_words(left).drop_first()))
            } else {
                None
            }
        },
        None => None,
    }
}

/// Required parameters from the first line of `ls` that is the header of `task`.
pub open spec fn required_in(ls: Seq<Seq<char>>, task: Seq<char>) -> Option<Seq<Seq<char>>>
    decreases ls.len(),
{
    if ls.len() == 0 {
        None
    } else {
        match header_required(ls[0], task) {
            Some(r) => Some(r),
            None => required_in(ls.drop_first(), task),
        }
    }
}

/// A header whose first word is not the requested task never matches,
/// whatever the rest of the header holds.
pub proof fn lemma_other_name_no_match(line: Seq<char>, task: Seq<char>)
    requires
        header_name(line) != Some(task),
    ensures
        header_required(line, task) is None,
{
}

pub proof fn lemma_state_bounds(s: Seq<char>, n: int)
    requires
        0 <= n <= s.len(),
    ensures
        state_at(s, n).paren <= n,
        state_at(s, n).bracket <= n,
        state_at(s, n).brace <= n,
    decreases n,
{
    if n > 0 {
        lemma_state_bounds(s, n - 1);
    }
}

impl ParseState {
    pub fn new() -> (r: ParseState)
        ensures
            r@ == scan_init(),
    {
        ParseState { quote: None, escaped: false, paren: 0, bracket: 0, brace: 0 }
    }

    pub fn top_level(&self) -> (r: bool)
        ensures
            r == top(self@),
    {
        self.quote.is_none() && self.paren == 0 && self.bracket == 0 && self.brace == 0
    }
}

fn closes_exec(q: Quote, c: char) -> (r: bool)
    ensures
        r == closes(q, c),
{
    match q {
        Quote::Single => c == '\'',
        Quote::Double => c == '"',
        Quote::Backtick => c == '`',
    }
}

/// Feeds one character to the scanner.
pub fn advance_state(state: &mut ParseState, ch: char)
    requires
        old(state).paren < usize::MAX,
        old(state).bracket < usize::MAX,
        old(state).brace < usize::MAX,
    ensures
        final(state)@ == step(old(state)@, ch),
{
    if let Some(quote) = state.quote {
        if state.escaped {
            state.escaped = false;
            return;
        }
        if ch == '\\' {
            state.escaped = true;
            return;
        }
        if closes_exec(quote, ch) {
            state.quote = None;
        }
        return;
    }
    if ch == '\'' {
        state.quote = Some(Quote::Single);
    } else if ch == '"' {
        state.quote = Some(Quote::Double);
    } else if ch == '`' {
        state.quote = Some(Quote::Backtick);
    } else if ch == '(' {
        state.paren = state.paren + 1;
    } else if ch == ')' {
        state.paren = state.paren.saturating_sub(1);
    } else if ch == '[' {
        state.bracket = state.bracket + 1;
    } else if ch == ']' {
        state.bracket = state.bracket.saturating_sub(1);
    } else if ch == '{' {
        state.brace = state.brace + 1;
    } else if ch == '}' {
        state.brace = state.brace.saturating_sub(1);
    }
}

/// Index of the first top-level `target` in `input`, from index 0.
pub fn find_top_level(input: &str, target: char) -> (r: usize)
    ensures
        r == top_find_from(input@, target, 0),
{
    let n = input.unicode_len();
    let mut state = ParseState::new();
    let mut i: usize = 0;
    while i < n
        invariant
            n == input@.len(),
            i <= n,
            state@ == state_at(input@, i as int),
            top_find_from(input@, target, 0) == top_find_from(input@, target, i as int),
        decreases n - i,
    {
        let ch = input.get_char(i);
        if state.top_level() && ch == target {
            return i;
        }
        proof {
            lemma_state_bounds(input@, i as int);
        }
        advance_state(&mut state, ch);
        i = i + 1;
    }
    i
}

/// Index of the first colon outside quotes and brackets.
pub fn find_top_level_colon(input: &str) -> (r: Option<usize>)
    ensures
        match r {
            Some(i) => i == top_find_from(input@, ':', 0) && i < input@.len(),
            None => top_find_from(input@, ':', 0) >= input@.len(),
        },
{
    let i = find_top_level(input, ':');
    if i < input.unicode_len() {
        Some(i)
    } else {
        None
    }
}

/// Whether `target` occurs outside quotes and brackets.
pub fn has_top_level_char(input: &str, target: char) -> (r: bool)
    ensures
        r == has_top_char(input@, target),
{
    find_top_level(input, target) < input.unicode_len()
}

/// Splits `input` at whitespace that stands outside quotes and brackets.
pub fn split_top_level_whitespace(input: &str) -> (r: Vec<&str>)
    ensures
        r@.map_values(|p: &str| p@) == top_words(input@),
{
    let n = input.unicode_len();
    let mut state = ParseState::new();
    let mut parts: Vec<&str> = Vec::new();
    let mut start: Option<usize> = None;
    let mut i: usize = 0;
    while i < n
        invariant
            n == input@.len(),
            i <= n,
            state@ == state_at(input@, i as int),
            match start {
                Some(a) => a < i,
                None => true,
            },
            (parts@.map_values(|p: &str| p@), match start {
                Some(a) => Some(a as int),
                None => None,
            }) == split_upto(input@, i as int),
        decreases n - i,
    {
        let ch = input.get_char(i);
        let ghost old_parts = parts@;
        if state.top_level() && is_ws(ch) {
            if let Some(a) = start {
                parts.push(input.substring_char(a, i));
                assert(parts@.map_values(|p: &str| p@) =~= old_parts.map_values(|p: &str| p@).push(
                    input@.subrange(a as int, i as int),
                ));
            }
            start = None;
        } else if start.is_none() {
            start = Some(i);
        }
        proof {
            lemma_state_bounds(input@, i as int);
        }
        advance_state(&mut state, ch);
        i = i + 1;
    }
    if let Some(a) = start {
        let ghost old_parts = parts@;
        parts.push(input.substring_char(a, n));
        assert(parts@.map_values(|p: &str| p@) =~= old_parts.map_values(|p: &str| p@).push(
            input@.subrange(a as int, n as int),
        ));
    }
    parts
}

fn strips(c: char, sigils: bool) -> (r: bool)
    ensures
        r == ((sigils && (c == '$' || c == '+' || c == '*')) || (!sigils && c == '@')),
{
    if sigils {
        c == '$' || c == '+' || c == '*'
    } else {
        c == '@'
    }
}

fn skip_lead_exec(s: &str, sigils: bool) -> (r: &str)
    ensures
        r@ == strip_lead(s@, sigils),
{
    let n = s.unicode_len();
    let mut k: usize = 0;
    while k < n && strips(s.get_char(k), sigils)
        invariant
            n == s@.len(),
            k <= n,
            skip_lead(s@, 0, sigils) == skip_lead(s@, k as int, sigils),
        decreases n - k,
    {
        k = k + 1;
    }
    s.substring_char(k, n)
}

fn strip_commas_exec(s: &str) -> (r: &str)
    ensures
        r@ == strip_commas(s@),
{
    let mut j = s.unicode_len();
    while j > 0 && s.get_char(j - 1) == ','
        invariant
            j <= s@.len(),
            back_commas(s@, s@.len() as int) == back_commas(s@, j as int),
        decreases j,
    {
        j = j - 1;
    }
    s.substring_char(0, j)
}

fn is_ascii_alpha(c: char) -> (r: bool)
    ensures
        r == ascii_alpha(c),
{
    ('a' <= c && c <= 'z') || ('A' <= c && c <= 'Z')
}

/// Whether `value` is a parameter name.
pub fn is_valid_identifier(value: &str) -> (r: bool)
    ensures
        r == identifier(value@),
{
    let n = value.unicode_len();
    if n == 0 {
        return false;
    }
    let first = value.get_char(0);
    if !(first == '_' || is_ascii_alpha(first)) {
        return false;
    }
    let mut k: usize = 1;
    while k < n
        invariant
            n == value@.len(),
            1 <= k <= n,
            forall|j: int|
                1 <= j < k ==> (value@[j] == '_' || value@[j] == '-' || ascii_alnum(
                    #[trigger] value@[j],
                )),
        decreases n - k,
    {
        let c = value.get_char(k);
        if !(c == '_' || c == '-' || is_ascii_alpha(c) || ('0' <= c && c <= '9')) {
            return false;
        }
        k = k + 1;
    }
    true
}

/// Required parameter names of `task` when `line` is its declaration header,
/// or `None` when `line` is no header of `task`.
pub fn parse_required_from_just_header(line: &str, task: &str) -> (r: Option<Vec<String>>)
    ensures
        match (r, header_required(line@, task@)) {
            (Some(v), Some(w)) => views(v@) == w,
            (None, None) => true,
            _ => false,
        },
{
    let n = line.unicode_len();
    if n > 0 && (line.get_char(0) == ' ' || line.get_char(0) == '\t') {
        return None;
    }
    let trimmed = trim(line);
    let tn = trimmed.unicode_len();
    if tn == 0 || trimmed.get_char(0) == '#' {
        return None;
    }
    let h = find_top_level(trimmed, ':');
    if h >= tn {
        return None;
    }
    let tail = trimmed.substring_char(h, tn);
    if starts_with_assign(tail) {
        return None;
    }
    let left = trim(trimmed.substring_char(0, h));
    if left.unicode_len() == 0 {
        return None;
    }
    let parts = split_top_level_whitespace(left);
    if parts.len() == 0 {
        return None;
    }
    let name = skip_lead_exec(parts[0], false);
    if !str_eq(name, task) {
        return None;
    }
    let mut required: Vec<String> = Vec::new();
    let mut k: usize = 1;
    let ghost word_list = top_words(left@);
    while k < parts.len()
        invariant
            1 <= k <= parts@.len(),
            parts@.map_values(|p: &str| p@) == word_list,
            views(required@) == arg_names(word_list.subrange(1, k as int)),
        decreases parts.len() - k,
    {
        let raw = parts[k];
        let token = strip_commas_exec(raw);
        let ghost prev = views(required@);
        assert(word_list.subrange(1, k + 1).drop_last() =~= word_list.subrange(1, k as int));
        assert(word_list.subrange(1, k + 1).last() == raw@);
        if token.unicode_len() == 0 || token.get_char(0) == '*' || has_top_level_char(token, '=') {
        } else {
            let clean = skip_lead_exec(token, true);
            if is_valid_identifier(clean) {
                required.push(clean.to_string());
                assert(views(required@) =~= prev.push(clean@));
            }
        }
        k = k + 1;
    }
    assert(word_list.subrange(1, k as int) =~= word_list.drop_first());
    Some(required)
}

fn starts_with_assign(s: &str) -> (r: bool)
    ensures
        r == starts(s@, seq![':', '=']),
{
    let n = s.unicode_len();
    if n < 2 {
        return false;
    }
    let r = s.get_char(0) == ':' && s.get_char(1) == '=';
    assert(r == (s@.subrange(0, 2) =~= seq![':', '=']));
    r
}

/// Character-wise equality of two strings.
pub fn str_eq(a: &str, b: &str) -> (r: bool)
    ensures
        r == (a@ == b@),
{
    let n = a.unicode_len();
    if n != b.unicode_len() {
        return false;
    }
    let mut k: usize = 0;
    while k < n
        invariant
            n == a@.len(),
            n == b@.len(),
            k <= n,
            forall|j: int| 0 <= j < k ==> a@[j] == b@[j],
        decreases n - k,
    {
        if a.get_char(k) != b.get_char(k) {
            return false;
        }
        k = k + 1;
    }
    assert(a@ =~= b@);
    true
}

/// Required parameter names of `task` in the runner file `contents`: those of
/// the first header that declares `task`, or none. Only justfiles declare
/// parameters in their headers.
pub fn required_args_for_task(detection: &Detection, contents: &str, task: &str) -> (r: Vec<
    String,
>)
    ensures
        detection.runner != Runner::Justfile ==> r@.len() == 0,
        detection.runner == Runner::Justfile ==> views(r@) == match required_in(
            lines_of(contents@),
            task@,
        ) {
            Some(w) => w,
            None => Seq::empty(),
        },
{
    match detection.runner {
        Runner::Justfile => {},
        _ => {
            return Vec::new();
        },
    }
    let lines = split_lines(contents);
    let ghost ls = lines_of(contents@);
    assert(ls.subrange(0, ls.len() as int) =~= ls);
    let mut k: usize = 0;
    while k < lines.len()
        invariant
            k <= lines@.len(),
            detection.runner == Runner::Justfile,
            ls == lines_of(contents@),
            views(lines@) == ls,
            required_in(ls, task@) == required_in(ls.subrange(k as int, ls.len() as int), task@),
        decreases lines.len() - k,
    {
        let ghost rest = ls.subrange(k as int, ls.len() as int);
        assert(ls.len() == lines@.len());
        assert(rest[0] == lines@[k as int]@);
        assert(rest.drop_first() =~= ls.subrange(k + 1, ls.len() as int));
        if let Some(found) = parse_required_from_just_header(lines[k].as_str(), task) {
            assert(required_in(rest, task@) == Some(views(found@)));
            return found;
        }
        k = k + 1;
    }
    Vec::new()
}

} // verus!
