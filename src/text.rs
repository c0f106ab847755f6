//! Character-level helpers over string views: whitespace, trimming, searching
//! and line splitting, each with the sequence-level definition it computes.
use vstd::prelude::*;

verus! {

/// Unicode `White_Space`, the class that `char::is_whitespace` tests.
pub open spec fn ws(c: char) -> bool {
    let u = c as u32;
    u == 32 || (9 <= u && u <= 13) || u == 0x85 || u == 0xa0 || u == 0x1680 || (0x2000 <= u
        && u <= 0x200a) || u == 0x2028 || u == 0x2029 || u == 0x202f || u == 0x205f || u == 0x3000
}

pub fn is_ws(c: char) -> (r: bool)
    ensures
        r == ws(c),
{
    let u = c as u32;
    u == 32 || (9 <= u && u <= 13) || u == 0x85 || u == 0xa0 || u == 0x1680 || (0x2000 <= u && u
        <= 0x200a) || u == 0x2028 || u == 0x2029 || u == 0x202f || u == 0x205f || u == 0x3000
}

/// First index at or after `i` that holds no whitespace (or the length).
pub open spec fn skip_ws(s: Seq<char>, i: int) -> int
    decreases s.len() - i,
{
    if i >= s.len() {
        s.len() as int
    } else if ws(s[i]) {
        skip_ws(s, i + 1)
    } else {
        i
    }
}

/// First index at or after `i` that holds whitespace (or the length).
pub open spec fn skip_word(s: Seq<char>, i: int) -> int
    decreases s.len() - i,
{
    if i >= s.len() {
        s.len() as int
    } else if ws(s[i]) {
        i
    } else {
        skip_word(s, i + 1)
    }
}

/// Index just past the last non-whitespace character before `j` (or 0).
pub open spec fn back_ws(s: Seq<char>, j: int) -> int
    decreases j,
{
    if j <= 0 {
        0
    } else if ws(s[j - 1]) {
        back_ws(s, j - 1)
    } else {
        j
    }
}

/// First index at or after `i` that holds `c` (or the length).
pub open spec fn find_from(s: Seq<char>, c: char, i: int) -> int
    decreases s.len() - i,
{
    if i >= s.len() {
        s.len() as int
    } else if s[i] == c {
        i
    } else {
        find_from(s, c, i + 1)
    }
}

pub open spec fn trim_start_of(s: Seq<char>) -> Seq<char> {
    s.subrange(skip_ws(s, 0), s.len() as int)
}

pub open spec fn trim_end_of(s: Seq<char>) -> Seq<char> {
    s.subrange(0, back_ws(s, s.len() as int))
}

pub open spec fn trim_of(s: Seq<char>) -> Seq<char> {
    trim_end_of(trim_start_of(s))
}

pub open spec fn has_char(s: Seq<char>, c: char) -> bool {
    find_from(s, c, 0) < s.len()
}

/// The part before the first `c`, and the part after it, if `c` occurs.
pub open spec fn split_once_of(s: Seq<char>, c: char) -> Option<(Seq<char>, Seq<char>)> {
    let k = find_from(s, c, 0);
    if k < s.len() {
        Some((s.subrange(0, k), s.subrange(k + 1, s.len() as int)))
    } else {
        None
    }
}

/// The first whitespace-delimited word (empty when there is none).
pub open spec fn first_word(s: Seq<char>) -> Seq<char> {
    let a = skip_ws(s, 0);
    s.subrange(a, skip_word(s, a))
}

pub open spec fn starts(s: Seq<char>, p: Seq<char>) -> bool {
    p.len() <= s.len() && s.subrange(0, p.len() as int) == p
}

pub open spec fn ends_with_char(s: Seq<char>, c: char) -> bool {
    s.len() > 0 && s[s.len() - 1] == c
}

/// Whether `p` occurs in `s` at some index at or after `i`.
pub open spec fn occurs_from(s: Seq<char>, p: Seq<char>, i: int) -> bool
    decreases s.len() + 1 - i,
{
    if i < 0 || i + p.len() > s.len() {
        false
    } else if s.subrange(i, i + p.len()) == p {
        true
    } else {
        occurs_from(s, p, i + 1)
    }
}

pub open spec fn occurs(s: Seq<char>, p: Seq<char>) -> bool {
    occurs_from(s, p, 0)
}

/// A line without its terminating `\r` when the line ended with `\r\n`.
pub open spec fn chop_cr(l: Seq<char>, terminated: bool) -> Seq<char> {
    if terminated && ends_with_char(l, '\r') {
        l.drop_last()
    } else {
        l
    }
}

/// The lines of `s` from index `i`, split as `str::lines` splits them.
pub open spec fn lines_from(s: Seq<char>, i: int) -> Seq<Seq<char>>
    decreases s.len() - i,
{
    let e = find_from(s, '\n', i);
    if i < 0 || i >= s.len() || e < i {
        Seq::empty()
    } else if e >= s.len() {
        seq![s.subrange(i, s.len() as int)]
    } else {
        seq![chop_cr(s.subrange(i, e), true)] + lines_from(s, e + 1)
    }
}

pub open spec fn lines_of(s: Seq<char>) -> Seq<Seq<char>> {
    lines_from(s, 0)
}

pub open spec fn views(v: Seq<String>) -> Seq<Seq<char>> {
    v.map_values(|x: String| x@)
}

pub proof fn lemma_skip_ws(s: Seq<char>, i: int)
    requires
        0 <= i <= s.len(),
    ensures
        i <= skip_ws(s, i) <= s.len(),
        forall|k: int| i <= k < skip_ws(s, i) ==> ws(s[k]),
        skip_ws(s, i) < s.len() ==> !ws(s[skip_ws(s, i)]),
    decreases s.len() - i,
{
    if i < s.len() && ws(s[i]) {
        lemma_skip_ws(s, i + 1);
    }
}

pub proof fn lemma_skip_word(s: Seq<char>, i: int)
    requires
        0 <= i <= s.len(),
    ensures
        i <= skip_word(s, i) <= s.len(),
        forall|k: int| i <= k < skip_word(s, i) ==> !ws(s[k]),
    decreases s.len() - i,
{
    if i < s.len() && !ws(s[i]) {
        lemma_skip_word(s, i + 1);
    }
}

pub proof fn lemma_find_from(s: Seq<char>, c: char, i: int)
    requires
        0 <= i <= s.len(),
    ensures
        i <= find_from(s, c, i) <= s.len(),
        forall|k: int| i <= k < find_from(s, c, i) ==> s[k] != c,
        find_from(s, c, i) < s.len() ==> s[find_from(s, c, i)] == c,
    decreases s.len() - i,
{
    if i < s.len() && s[i] != c {
        lemma_find_from(s, c, i + 1);
    }
}

pub fn skip_ws_exec(s: &str, i: usize) -> (r: usize)
    requires
        i <= s@.len(),
    ensures
        r == skip_ws(s@, i as int),
{
    let n = s.unicode_len();
    let mut k = i;
    while k < n && is_ws(s.get_char(k))
        invariant
            n == s@.len(),
            i <= k <= n,
            skip_ws(s@, i as int) == skip_ws(s@, k as int),
        decreases n - k,
    {
        k = k + 1;
    }
    k
}

pub fn skip_word_exec(s: &str, i: usize) -> (r: usize)
    requires
        i <= s@.len(),
    ensures
        r == skip_word(s@, i as int),
{
    let n = s.unicode_len();
    let mut k = i;
    while k < n && !is_ws(s.get_char(k))
        invariant
            n == s@.len(),
            i <= k <= n,
            skip_word(s@, i as int) == skip_word(s@, k as int),
        decreases n - k,
    {
        k = k + 1;
    }
    k
}

pub fn find_from_exec(s: &str, c: char, i: usize) -> (r: usize)
    requires
        i <= s@.len(),
    ensures
        r == find_from(s@, c, i as int),
{
    let n = s.unicode_len();
    let mut k = i;
    while k < n && s.get_char(k) != c
        invariant
            n == s@.len(),
            i <= k <= n,
            find_from(s@, c, i as int) == find_from(s@, c, k as int),
        decreases n - k,
    {
        k = k + 1;
    }
    k
}

pub fn trim_start(s: &str) -> (r: &str)
    ensures
        r@ == trim_start_of(s@),
{
    let a = skip_ws_exec(s, 0);
    proof {
        lemma_skip_ws(s@, 0);
    }
    s.substring_char(a, s.unicode_len())
}

pub fn trim_end(s: &str) -> (r: &str)
    ensures
        r@ == trim_end_of(s@),
{
    let mut j = s.unicode_len();
    while j > 0 && is_ws(s.get_char(j - 1))
        invariant
            j <= s@.len(),
            back_ws(s@, s@.len() as int) == back_ws(s@, j as int),
        decreases j,
    {
        j = j - 1;
    }
    s.substring_char(0, j)
}

pub fn trim(s: &str) -> (r: &str)
    ensures
        r@ == trim_of(s@),
{
    trim_end(trim_start(s))
}

pub fn has_char_exec(s: &str, c: char) -> (r: bool)
    ensures
        r == has_char(s@, c),
{
    find_from_exec(s, c, 0) < s.unicode_len()
}

pub fn split_once(s: &str, c: char) -> (r: Option<(&str, &str)>)
    ensures
        match (r, split_once_of(s@, c)) {
            (Some((a, b)), Some((x, y))) => a@ == x && b@ == y,
            (None, None) => true,
            _ => false,
        },
{
    let n = s.unicode_len();
    let k = find_from_exec(s, c, 0);
    proof {
        lemma_find_from(s@, c, 0);
    }
    if k < n {
        Some((s.substring_char(0, k), s.substring_char(k + 1, n)))
    } else {
        None
    }
}

pub fn first_word_exec(s: &str) -> (r: &str)
    ensures
        r@ == first_word(s@),
{
    let a = skip_ws_exec(s, 0);
    proof {
        lemma_skip_ws(s@, 0);
    }
    let b = skip_word_exec(s, a);
    proof {
        lemma_skip_word(s@, a as int);
    }
    s.substring_char(a, b)
}

pub fn starts_with(s: &str, p: &str) -> (r: bool)
    ensures
        r == starts(s@, p@),
{
    let n = s.unicode_len();
    let m = p.unicode_len();
    if m > n {
        return false;
    }
    let mut k: usize = 0;
    while k < m
        invariant
            n == s@.len(),
            m == p@.len(),
            m <= n,
            k <= m,
            forall|j: int| 0 <= j < k ==> s@[j] == p@[j],
        decreases m - k,
    {
        if s.get_char(k) != p.get_char(k) {
            assert(s@.subrange(0, m as int)[k as int] != p@[k as int]);
            return false;
        }
        k = k + 1;
    }
    assert(s@.subrange(0, m as int) =~= p@);
    true
}

/// Whether the text at index `i` of `s` spells `p`.
fn matches_at(s: &str, p: &str, i: usize) -> (r: bool)
    requires
        i + p@.len() <= s@.len(),
    ensures
        r == (s@.subrange(i as int, i + p@.len()) == p@),
{
    let n = s.unicode_len();
    let m = p.unicode_len();
    let mut k: usize = 0;
    while k < m
        invariant
            n == s@.len(),
            m == p@.len(),
            i + m <= s@.len(),
            k <= m,
            forall|j: int| 0 <= j < k ==> s@[i + j] == p@[j],
        decreases m - k,
    {
        if s.get_char(i + k) != p.get_char(k) {
            assert(s@.subrange(i as int, i + m)[k as int] != p@[k as int]);
            return false;
        }
        k = k + 1;
    }
    assert(s@.subrange(i as int, i + m) =~= p@);
    true
}

pub fn occurs_exec(s: &str, p: &str) -> (r: bool)
    ensures
        r == occurs(s@, p@),
{
    let n = s.unicode_len();
    let m = p.unicode_len();
    if m == 0 {
        assert(s@.subrange(0, 0) =~= p@);
        return true;
    }
    let mut i: usize = 0;
    while i <= n && m <= n - i
        invariant
            n == s@.len(),
            m == p@.len(),
            m > 0,
            occurs(s@, p@) == occurs_from(s@, p@, i as int),
        decreases n + 1 - i,
    {
        if matches_at(s, p, i) {
            return true;
        }
        i = i + 1;
    }
    false
}

pub fn ends_with_char_exec(s: &str, c: char) -> (r: bool)
    ensures
        r == ends_with_char(s@, c),
{
    let n = s.unicode_len();
    n > 0 && s.get_char(n - 1) == c
}

/// Splits `s` into lines as `str::lines` does.
pub fn split_lines(s: &str) -> (r: Vec<String>)
    ensures
        views(r@) == lines_of(s@),
{
    let n = s.unicode_len();
    let mut out: Vec<String> = Vec::new();
    let mut i: usize = 0;
    while i < n
        invariant
            n == s@.len(),
            i <= n,
            views(out@) + lines_from(s@, i as int) == lines_of(s@),
        decreases n - i,
    {
        let e = find_from_exec(s, '\n', i);
        proof {
            lemma_find_from(s@, '\n', i as int);
        }
        let seg = s.substring_char(i, e);
        let next = if e < n { e + 1 } else { n };
        let line = if e < n && ends_with_char_exec(seg, '\r') {
            seg.substring_char(0, seg.unicode_len() - 1)
        } else {
            seg
        };
        assert(line@ == chop_cr(s@.subrange(i as int, e as int), e < n));
        let ghost before = views(out@);
        out.push(line.to_string());
        assert(views(out@) =~= before.push(line@));
        if e < n {
            assert(lines_from(s@, i as int) == seq![line@] + lines_from(s@, e + 1));
        } else {
            assert(lines_from(s@, i as int) =~= seq![line@] + lines_from(s@, next as int));
        }
        assert(views(out@) + lines_from(s@, next as int) =~= before + lines_from(s@, i as int));
        i = next;
    }
    assert(lines_from(s@, i as int) =~= Seq::<Seq<char>>::empty());
    assert(views(out@) =~= views(out@) + lines_from(s@, i as int));
    out
}

} // verus!

verus! {

/// Words among the first `n` characters, and the start of an open word.
pub open spec fn words_upto(s: Seq<char>, n: int) -> (Seq<Seq<char>>, Option<int>)
    decreases n,
{
    if n <= 0 {
        (Seq::empty(), None)
    } else {
        let (parts, start) = words_upto(s, n - 1);
        if ws(s[n - 1]) {
            match start {
                Some(a) => (parts.push(s.subrange(a, n - 1)), None),
                None => (parts, None),
            }
        } else {
            match start {
                Some(a) => (parts, Some(a)),
                None => (parts, Some(n - 1)),
            }
        }
    }
}

/// The whitespace-separated words of `s`, as `str::split_whitespace` yields them.
pub open spec fn words(s: Seq<char>) -> Seq<Seq<char>> {
    let (parts, start) = words_upto(s, s.len() as int);
    match start {
        Some(a) => parts.push(s.subrange(a, s.len() as int)),
        None => parts,
    }
}

pub open spec fn str_views(v: Seq<&str>) -> Seq<Seq<char>> {
    v.map_values(|p: &str| p@)
}

pub fn split_words(s: &str) -> (r: Vec<&str>)
    ensures
        str_views(r@) == words(s@),
{
    let n = s.unicode_len();
    let mut parts: Vec<&str> = Vec::new();
    let mut start: Option<usize> = None;
    let mut i: usize = 0;
    while i < n
        invariant
            n == s@.len(),
            i <= n,
            match start {
                Some(a) => a < i,
                None => true,
            },
            (str_views(parts@), match start {
                Some(a) => Some(a as int),
                None => None,
            }) == words_upto(s@, i as int),
        decreases n - i,
    {
        let ghost old_parts = parts@;
        if is_ws(s.get_char(i)) {
            if let Some(a) = start {
                parts.push(s.substring_char(a, i));
                assert(str_views(parts@) =~= str_views(old_parts).push(
                    s@.subrange(a as int, i as int),
                ));
            }
            start = None;
        } else if start.is_none() {
            start = Some(i);
        }
        i = i + 1;
    }
    if let Some(a) = start {
        let ghost old_parts = parts@;
        parts.push(s.substring_char(a, n));
        assert(str_views(parts@) =~= str_views(old_parts).push(s@.subrange(a as int, n as int)));
    }
    parts
}

} // verus!

verus! {

/// First index at or after `i` that does not hold `c` (or the length).
pub open spec fn skip_char(s: Seq<char>, c: char, i: int) -> int
    decreases s.len() - i,
{
    if i >= s.len() {
        s.len() as int
    } else if s[i] == c {
        skip_char(s, c, i + 1)
    } else {
        i
    }
}

/// `s` without its leading run of `c`.
pub open spec fn trim_start_char_of(s: Seq<char>, c: char) -> Seq<char> {
    s.subrange(skip_char(s, c, 0), s.len() as int)
}

pub fn trim_start_char(s: &str, c: char) -> (r: &str)
    ensures
        r@ == trim_start_char_of(s@, c),
{
    let n = s.unicode_len();
    let mut k: usize = 0;
    while k < n && s.get_char(k) == c
        invariant
            n == s@.len(),
            k <= n,
            skip_char(s@, c, 0) == skip_char(s@, c, k as int),
        decreases n - k,
    {
        k = k + 1;
    }
    s.substring_char(k, n)
}

} // verus!

verus! {

/// `name` appended to the path `base` with one separator, as `Path::join`
/// appends a relative component.
pub open spec fn join_path(base: Seq<char>, name: Seq<char>) -> Seq<char> {
    if base.len() == 0 {
        name
    } else if ends_with_char(base, '/') {
        base + name
    } else {
        base + seq!['/'] + name
    }
}

pub fn join(base: &str, name: &str) -> (r: String)
    ensures
        r@ == join_path(base@, name@),
{
    if base.unicode_len() == 0 {
        return name.to_string();
    }
    let mut s = base.to_string();
    if !ends_with_char_exec(base, '/') {
        s.append("/");
        proof {
            reveal_strlit("/");
        }
    }
    s.append(name);
    proof {
        if !ends_with_char(base@, '/') {
            assert(s@ =~= base@ + seq!['/'] + name@);
        }
    }
    s
}

/// Whether `n` is one of `names`.
pub open spec fn listed(names: Seq<String>, n: Seq<char>) -> bool {
    exists|i: int| 0 <= i < names.len() && (#[trigger] names[i])@ == n
}

pub fn listed_exec(names: &Vec<String>, n: &str) -> (r: bool)
    ensures
        r == listed(names@, n@),
{
    let mut k: usize = 0;
    while k < names.len()
        invariant
            k <= names@.len(),
            forall|i: int| 0 <= i < k ==> (#[trigger] names@[i])@ != n@,
        decreases names.len() - k,
    {
        if crate::task_args::str_eq(names[k].as_str(), n) {
            return true;
        }
        k = k + 1;
    }
    false
}

} // verus!

