//! The execution ledger's records, where they are kept, and the order in
//! which records from several locations are read back.
use vstd::prelude::*;

use crate::detect::Runner;
use crate::tasks::opt_view;
use crate::text::{join, join_path, trim, trim_of};

verus! {

#[derive(Debug, Copy, Clone, PartialEq, Eq, Structural)]
pub enum HistoryEngine {
    Make,
    Just,
    Shell,
    Unknown,
}

/// One completed execution.
#[derive(Debug, Clone, PartialEq, Eq)]
pub struct HistoryRecord {
    pub v: u8,
    pub ts: String,
    pub cmd: String,
    pub cwd: String,
    pub exit_code: i32,
    pub duration_ms: u64,
    pub engine: Option<HistoryEngine>,
    pub target: Option<String>,
    pub file: Option<String>,
    pub hostname: Option<String>,
    pub user: Option<String>,
}

/// A task run to record. `hostname` and `user` are the raw values of the
/// environment, if set.
pub struct RecordInput<'a> {
    pub runner: Runner,
    pub command: &'a str,
    pub task: &'a str,
    pub cwd: &'a str,
    pub exit_code: i32,
    pub duration_ms: u64,
    pub runner_file: Option<&'a str>,
    pub hostname: Option<&'a str>,
    pub user: Option<&'a str>,
}

/// A shell command run to record.
pub struct ShellRecordInput<'a> {
    pub command: &'a str,
    pub cwd: &'a str,
    pub exit_code: i32,
    pub duration_ms: u64,
    pub hostname: Option<&'a str>,
    pub user: Option<&'a str>,
}

pub open spec fn str_opt(o: Option<&str>) -> Option<Seq<char>> {
    match o {
        Some(s) => Some(s@),
        None => None,
    }
}

/// An environment value trimmed, and absent when nothing is left.
pub open spec fn env_value(o: Option<Seq<char>>) -> Option<Seq<char>> {
    match o {
        Some(s) => if trim_of(s).len() > 0 {
            Some(trim_of(s))
        } else {
            None
        },
        None => None,
    }
}

pub open spec fn engine_of(runner: Runner) -> HistoryEngine {
    match runner {
        Runner::Makefile | Runner::CargoMake => HistoryEngine::Make,
        Runner::Justfile => HistoryEngine::Just,
        _ => HistoryEngine::Shell,
    }
}

/// What every timestamp of the clock has: a date, then `T` at index 10.
pub open spec fn timestamp_shaped(ts: Seq<char>) -> bool {
    ts.len() >= 20 && ts[10] == 'T'
}

/// Relies on time's `OffsetDateTime::now_local` (or `now_utc` when the local
/// offset is unknown) formatted with the RFC 3339 description: four year
/// digits, `-`, two, `-`, two, `T`, then the time. Formatting fails
/// outside years 0 to 9999, and for a local offset with a seconds part.
#[verifier::external_body]
fn now_rfc3339() -> (r: Option<String>)
    ensures
        match r {
            Some(s) => timestamp_shaped(s@),
            None => true,
        },
{
    let now = match time::OffsetDateTime::now_local() {
        Ok(t) => t,
        Err(_) => time::OffsetDateTime::now_utc(),
    };
    now.format(&time::format_description::well_known::Rfc3339).ok()
}

/// The current time as an RFC 3339 timestamp, or the Unix epoch when the
/// clock's year cannot be written that way.
fn current_timestamp() -> (r: String)
    ensures
        timestamp_shaped(r@),
{
    match now_rfc3339() {
        Some(s) => s,
        None => {
            proof {
                reveal_strlit("1970-01-01T00:00:00+00:00");
            }
            String::from_str("1970-01-01T00:00:00+00:00")
        },
    }
}

/// The instant an RFC 3339 timestamp denotes, in nanoseconds since the Unix
/// epoch, or `None` when the text is no RFC 3339 timestamp.
pub uninterp spec fn rfc3339_instant(s: Seq<char>) -> Option<i128>;

/// Relies on time's `OffsetDateTime::parse` with the RFC 3339 description
/// and `unix_timestamp_nanos`; the result depends on the text alone, and
/// two parsed timestamps order as their instants do.
#[verifier::external_body]
fn parse_instant(ts: &str) -> (r: Option<i128>)
    ensures
        r == rfc3339_instant(ts@),
{
    time::OffsetDateTime::parse(ts, &time::format_description::well_known::Rfc3339).ok().map(
        |t| t.unix_timestamp_nanos(),
    )
}

/// An environment value trimmed, kept only when text is left.
pub fn non_empty(value: Option<&str>) -> (r: Option<String>)
    ensures
        opt_view(r) == env_value(str_opt(value)),
{
    match value {
        Some(v) => {
            let t = trim(v);
            if t.unicode_len() == 0 {
                None
            } else {
                Some(t.to_string())
            }
        },
        None => None,
    }
}

/// The engine recorded for tasks of a runner.
pub fn engine_for_runner(runner: Runner) -> (r: HistoryEngine)
    ensures
        r == engine_of(runner),
{
    match runner {
        Runner::Makefile | Runner::CargoMake => HistoryEngine::Make,
        Runner::Justfile => HistoryEngine::Just,
        Runner::Taskfile | Runner::Maskfile | Runner::Mise => HistoryEngine::Shell,
    }
}

fn owned(o: Option<&str>) -> (r: Option<String>)
    ensures
        opt_view(r) == str_opt(o),
{
    match o {
        Some(s) => Some(s.to_string()),
        None => None,
    }
}

impl HistoryRecord {
    /// The record of a task run, stamped with the current time.
    pub fn from_input(input: RecordInput<'_>) -> (r: HistoryRecord)
        ensures
            r.v == 1,
            timestamp_shaped(r.ts@),
            r.cmd@ == input.command@,
            r.cwd@ == input.cwd@,
            r.exit_code == input.exit_code,
            r.duration_ms == input.duration_ms,
            r.engine == Some(engine_of(input.runner)),
            opt_view(r.target) == Some(input.task@),
            opt_view(r.file) == str_opt(input.runner_file),
            opt_view(r.hostname) == env_value(str_opt(input.hostname)),
            opt_view(r.user) == env_value(str_opt(input.user)),
    {
        HistoryRecord {
            v: 1,
            ts: current_timestamp(),
            cmd: input.command.to_string(),
            cwd: input.cwd.to_string(),
            exit_code: input.exit_code,
            duration_ms: input.duration_ms,
            engine: Some(engine_for_runner(input.runner)),
            target: Some(input.task.to_string()),
            file: owned(input.runner_file),
            hostname: non_empty(input.hostname),
            user: non_empty(input.user),
        }
    }

    /// The record of a shell command run, stamped with the current time.
    pub fn from_shell_input(input: ShellRecordInput<'_>) -> (r: HistoryRecord)
        ensures
            r.v == 1,
            timestamp_shaped(r.ts@),
            r.cmd@ == input.command@,
            r.cwd@ == input.cwd@,
            r.exit_code == input.exit_code,
            r.duration_ms == input.duration_ms,
            r.engine == Some(HistoryEngine::Shell),
            r.target is None,
            r.file is None,
            opt_view(r.hostname) == env_value(str_opt(input.hostname)),
            opt_view(r.user) == env_value(str_opt(input.user)),
    {
        HistoryRecord {
            v: 1,
            ts: current_timestamp(),
            cmd: input.command.to_string(),
            cwd: input.cwd.to_string(),
            exit_code: input.exit_code,
            duration_ms: input.duration_ms,
            engine: Some(HistoryEngine::Shell),
            target: None,
            file: None,
            hostname: non_empty(input.hostname),
            user: non_empty(input.user),
        }
    }
}

/// One ledger file.
#[derive(Debug, Clone)]
pub struct HistoryStore {
    pub path: String,
}

/// A record read back, with the line it was read from.
#[derive(Debug, Clone, PartialEq, Eq)]
pub struct StoredRecord {
    pub raw: String,
    pub record: HistoryRecord,
}

impl HistoryStore {
    pub fn new(path: String) -> (r: HistoryStore)
        ensures
            r.path@ == path@,
    {
        HistoryStore { path }
    }
}

pub open spec fn history_tail() -> Seq<char> {
    "rt"@ + seq!['/'] + "history.jsonl"@
}

/// Ledger locations in the order they are tried: under the state
/// directory, then under the home directory's `.local/state` and `.rt`;
/// with neither known, `.rt` relative to the working directory.
pub open spec fn path_candidates(xdg: Option<Seq<char>>, home: Option<Seq<char>>) -> Seq<Seq<char>> {
    let a = match xdg {
        Some(b) => seq![join_path(join_path(b, "rt"@), "history.jsonl"@)],
        None => Seq::empty(),
    };
    let b = match home {
        Some(h) => seq![
            join_path(join_path(join_path(join_path(h, ".local"@), "state"@), "rt"@), "history.jsonl"@),
            join_path(join_path(h, ".rt"@), "history.jsonl"@),
        ],
        None => Seq::empty(),
    };
    if a.len() + b.len() == 0 {
        seq![join_path(".rt"@, "history.jsonl"@)]
    } else {
        a + b
    }
}

pub fn history_path_candidates(xdg_state_home: Option<&str>, home: Option<&str>) -> (r: Vec<String>)
    ensures
        crate::text::views(r@) == path_candidates(str_opt(xdg_state_home), str_opt(home)),
{
    let mut paths: Vec<String> = Vec::new();
    if let Some(base) = xdg_state_home {
        let p = join(join(base, "rt").as_str(), "history.jsonl");
        paths.push(p);
    }
    if let Some(base) = home {
        let p1 = join(join(join(join(base, ".local").as_str(), "state").as_str(), "rt").as_str(), "history.jsonl");
        let p2 = join(join(base, ".rt").as_str(), "history.jsonl");
        paths.push(p1);
        paths.push(p2);
    }
    if paths.len() == 0 {
        paths.push(join(".rt", "history.jsonl"));
    }
    assert(crate::text::views(paths@) =~= path_candidates(str_opt(xdg_state_home), str_opt(home)));
    paths
}

/// Lexicographic order of character sequences, as `str`'s `<=` orders them.
pub open spec fn lex_le(a: Seq<char>, b: Seq<char>) -> bool
    decreases a.len(),
{
    if a.len() == 0 {
        true
    } else if b.len() == 0 {
        false
    } else if a[0] != b[0] {
        a[0] < b[0]
    } else {
        lex_le(a.drop_first(), b.drop_first())
    }
}

/// Ledger order of two timestamps `a` and `b` whose parsed instants are
/// `ia` and `ib`: parsed ones by instant and before unparsed ones; unparsed
/// ones by their text.
pub open spec fn order_le(ia: Option<i128>, ib: Option<i128>, a: Seq<char>, b: Seq<char>) -> bool {
    match (ia, ib) {
        (Some(x), Some(y)) => x <= y,
        (Some(_), None) => true,
        (None, Some(_)) => false,
        (None, None) => lex_le(a, b),
    }
}

/// Ledger order of two timestamps.
pub open spec fn ts_le(a: Seq<char>, b: Seq<char>) -> bool {
    order_le(rfc3339_instant(a), rfc3339_instant(b), a, b)
}

pub open spec fn rec_le(a: StoredRecord, b: StoredRecord) -> bool {
    ts_le(a.record.ts@, b.record.ts@)
}

/// Every record orders no later than each record after it.
pub open spec fn sorted(s: Seq<StoredRecord>) -> bool {
    forall|i: int, j: int| 0 <= i < j < s.len() ==> rec_le(#[trigger] s[i], #[trigger] s[j])
}

pub proof fn lemma_lex_total(a: Seq<char>, b: Seq<char>)
    ensures
        lex_le(a, b) || lex_le(b, a),
    decreases a.len(),
{
    if a.len() > 0 && b.len() > 0 && a[0] == b[0] {
        lemma_lex_total(a.drop_first(), b.drop_first());
    }
}

pub proof fn lemma_lex_trans(a: Seq<char>, b: Seq<char>, c: Seq<char>)
    requires
        lex_le(a, b),
        lex_le(b, c),
    ensures
        lex_le(a, c),
    decreases a.len(),
{
    if a.len() > 0 && b.len() > 0 && c.len() > 0 && a[0] == b[0] && b[0] == c[0] {
        lemma_lex_trans(a.drop_first(), b.drop_first(), c.drop_first());
    }
}

pub proof fn lemma_ts_total(a: Seq<char>, b: Seq<char>)
    ensures
        ts_le(a, b) || ts_le(b, a),
{
    lemma_lex_total(a, b);
}

pub proof fn lemma_ts_trans(a: Seq<char>, b: Seq<char>, c: Seq<char>)
    requires
        ts_le(a, b),
        ts_le(b, c),
    ensures
        ts_le(a, c),
{
    if rfc3339_instant(a) is None && rfc3339_instant(b) is None && rfc3339_instant(c) is None {
        lemma_lex_trans(a, b, c);
    }
}

fn lex_le_exec(a: &str, b: &str) -> (r: bool)
    ensures
        r == lex_le(a@, b@),
{
    let n = a.unicode_len();
    let m = b.unicode_len();
    let mut i: usize = 0;
    assert(a@.subrange(0, n as int) =~= a@);
    assert(b@.subrange(0, m as int) =~= b@);
    while i < n && i < m && a.get_char(i) == b.get_char(i)
        invariant
            n == a@.len(),
            m == b@.len(),
            i <= n,
            i <= m,
            lex_le(a@, b@) == lex_le(a@.subrange(i as int, n as int), b@.subrange(i as int, m as int)),
        decreases n - i,
    {
        assert(a@.subrange(i as int, n as int).drop_first() =~= a@.subrange(i + 1, n as int));
        assert(b@.subrange(i as int, m as int).drop_first() =~= b@.subrange(i + 1, m as int));
        i = i + 1;
    }
    if i == n {
        true
    } else if i == m {
        false
    } else {
        a.get_char(i) < b.get_char(i)
    }
}

/// Whether timestamp `a` (parsed as `a_instant`) orders no later than
/// timestamp `b` (parsed as `b_instant`).
pub fn instant_le(a_instant: Option<i128>, b_instant: Option<i128>, a: &str, b: &str) -> (r: bool)
    ensures
        r == order_le(a_instant, b_instant, a@, b@),
{
    match (a_instant, b_instant) {
        (Some(x), Some(y)) => x <= y,
        (Some(_), None) => true,
        (None, Some(_)) => false,
        (None, None) => lex_le_exec(a, b),
    }
}

/// Whether timestamp `a` orders no later than timestamp `b`.
pub fn timestamp_le(a: &str, b: &str) -> (r: bool)
    ensures
        r == ts_le(a@, b@),
{
    instant_le(parse_instant(a), parse_instant(b), a, b)
}

/// The records in ledger order.
pub fn sort_records(records: Vec<StoredRecord>) -> (r: Vec<StoredRecord>)
    ensures
        sorted(r@),
        r@.to_multiset() == records@.to_multiset(),
{
    let ghost all = records@;
    let mut rest = records;
    let mut out: Vec<StoredRecord> = Vec::new();
    proof {
        broadcast use vstd::seq_lib::group_to_multiset_ensures;
        assert(out@.to_multiset() =~= vstd::multiset::Multiset::empty());
        assert(out@.to_multiset().add(rest@.to_multiset()) =~= all.to_multiset());
    }
    while rest.len() > 0
        invariant
            sorted(out@),
            out@.to_multiset().add(rest@.to_multiset()) == all.to_multiset(),
        decreases rest.len(),
    {
        let ghost before_rest = rest@;
        let x = rest.pop().unwrap();
        proof {
            broadcast use vstd::seq_lib::group_to_multiset_ensures;
            assert(before_rest =~= rest@.push(x));
        }
        let mut p: usize = 0;
        while p < out.len() && !timestamp_le(x.record.ts.as_str(), out[p].record.ts.as_str())
            invariant
                p <= out@.len(),
                forall|i: int| 0 <= i < p ==> !rec_le(x, #[trigger] out@[i]),
            decreases out.len() - p,
        {
            p = p + 1;
        }
        let ghost o = out@;
        out.insert(p, x);
        proof {
            broadcast use vstd::seq_lib::group_to_multiset_ensures;
            assert forall|i: int, j: int| 0 <= i < j < out@.len() implies rec_le(
                #[trigger] out@[i],
                #[trigger] out@[j],
            ) by {
                if i < p as int && j < p as int {
                    assert(rec_le(o[i], o[j]));
                } else if i < p as int && j == p as int {
                    lemma_ts_total(x.record.ts@, o[i].record.ts@);
                } else if i < p as int {
                    assert(out@[j] == o[j - 1]);
                    assert(rec_le(o[i], o[j - 1]));
                } else if i == p as int {
                    assert(rec_le(x, o[p as int]));
                    if j - 1 > p {
                        assert(rec_le(o[p as int], o[j - 1]));
                        lemma_ts_trans(x.record.ts@, o[p as int].record.ts@, o[j - 1].record.ts@);
                    }
                } else {
                    assert(rec_le(o[i - 1], o[j - 1]));
                }
            }
        }
    }
    out
}

/// All records of several ledger locations, merged into ledger order.
pub fn merge_records(batches: Vec<Vec<StoredRecord>>) -> (r: Vec<StoredRecord>)
    ensures
        sorted(r@),
        r@.to_multiset() == batches@.map_values(|b: Vec<StoredRecord>| b@).flatten().to_multiset(),
{
    let ghost bs = batches@.map_values(|b: Vec<StoredRecord>| b@);
    assert(forall|j: int| 0 <= j < bs.len() ==> (#[trigger] batches@[j])@ == bs[j]);
    let mut all: Vec<StoredRecord> = Vec::new();
    let mut k: usize = 0;
    let mut batches = batches;
    assert(bs.subrange(0, 0).flatten() =~= Seq::<StoredRecord>::empty());
    while k < batches.len()
        invariant
            k <= batches@.len(),
            batches@.len() == bs.len(),
            forall|j: int| k <= j < bs.len() ==> (#[trigger] batches@[j])@ == bs[j],
            all@ == bs.subrange(0, k as int).flatten(),
        decreases batches.len() - k,
    {
        let mut batch: Vec<StoredRecord> = Vec::new();
        let ghost want = bs[k as int];
        batches.set_and_swap(k, &mut batch);
        let ghost before = all@;
        all.append(&mut batch);
        proof {
            assert(bs.subrange(0, k + 1).drop_last() =~= bs.subrange(0, k as int));
            bs.subrange(0, k as int).lemma_flatten_push(want);
            assert(bs.subrange(0, k as int).push(want) =~= bs.subrange(0, k + 1));
        }
        k = k + 1;
    }
    assert(bs.subrange(0, k as int) =~= bs);
    sort_records(all)
}

/// Merging two ledger locations gives the same records whichever is read
/// first; as the merge sorts them, either order of reading yields records
/// in ascending timestamp order over the same collection.
pub proof fn lemma_merge_order_free(a: Seq<StoredRecord>, b: Seq<StoredRecord>)
    ensures
        seq![a, b].flatten().to_multiset() == seq![b, a].flatten().to_multiset(),
{
    seq![a].lemma_flatten_push(b);
    seq![b].lemma_flatten_push(a);
    Seq::<Seq<StoredRecord>>::empty().lemma_flatten_push(a);
    Seq::<Seq<StoredRecord>>::empty().lemma_flatten_push(b);
    assert(seq![a].flatten() =~= a) by {
        assert(Seq::<Seq<StoredRecord>>::empty().push(a) =~= seq![a]);
        assert(Seq::<Seq<StoredRecord>>::empty().flatten() =~= Seq::<StoredRecord>::empty());
    }
    assert(seq![b].flatten() =~= b) by {
        assert(Seq::<Seq<StoredRecord>>::empty().push(b) =~= seq![b]);
        assert(Seq::<Seq<StoredRecord>>::empty().flatten() =~= Seq::<StoredRecord>::empty());
    }
    assert(seq![a].push(b) =~= seq![a, b]);
    assert(seq![b].push(a) =~= seq![b, a]);
    vstd::seq_lib::lemma_seq_union_to_multiset_commutative(a, b);
}

/// Records whose timestamps all parse, and whose instants tell them apart.
pub open spec fn distinct_instants(rs: Seq<StoredRecord>) -> bool {
    forall|i: int, j: int|
        0 <= i < rs.len() && 0 <= j < rs.len() ==> rfc3339_instant((#[trigger] rs[i]).record.ts@) is Some
            && (rfc3339_instant(rs[i].record.ts@) == rfc3339_instant((#[trigger] rs[j]).record.ts@)
            ==> rs[i] == rs[j])
}

/// When every record's instant is known and tells it apart, there is one
/// ledger order of a collection of records: merging locations yields the
/// same sequence whichever location is read first.
pub proof fn lemma_sorted_unique(a: Seq<StoredRecord>, b: Seq<StoredRecord>)
    requires
        sorted(a),
        sorted(b),
        a.to_multiset() == b.to_multiset(),
        distinct_instants(a),
    ensures
        a == b,
    decreases a.len(),
{
    broadcast use vstd::seq_lib::group_to_multiset_ensures;
    broadcast use vstd::multiset::group_multiset_axioms;

    vstd::seq_lib::to_multiset_len(a);
    vstd::seq_lib::to_multiset_len(b);
    if a.len() == 0 {
        assert(b.len() == 0);
        assert(a =~= b);
    } else {
        assert(b.len() == a.len());
        let x = a.last();
        let y = b.last();
        assert(a.contains(x));
        assert(b.contains(y));
        vstd::seq_lib::to_multiset_contains(a, x);
        vstd::seq_lib::to_multiset_contains(b, x);
        vstd::seq_lib::to_multiset_contains(a, y);
        vstd::seq_lib::to_multiset_contains(b, y);
        assert(a.contains(y));
        let i = choose|i: int| 0 <= i < a.len() && a[i] == y;
        assert(b.contains(x));
        let j = choose|j: int| 0 <= j < b.len() && b[j] == x;
        if i < a.len() - 1 {
            assert(rec_le(a[i], a[a.len() - 1]));
        }
        if j < b.len() - 1 {
            assert(rec_le(b[j], b[b.len() - 1]));
        }
        assert(rfc3339_instant(a[i].record.ts@) is Some);
        assert(rfc3339_instant(a[a.len() - 1].record.ts@) is Some);
        assert(x == y);
        assert(a.drop_last().push(x) =~= a);
        assert(b.drop_last().push(x) =~= b);
        vstd::seq_lib::to_multiset_build(a.drop_last(), x);
        vstd::seq_lib::to_multiset_build(b.drop_last(), x);
        let m1 = a.drop_last().to_multiset();
        let m2 = b.drop_last().to_multiset();
        assert(m1.insert(x) == m2.insert(x));
        assert forall|v: StoredRecord| m1.count(v) == m2.count(v) by {
            assert(m1.insert(x).count(v) == m2.insert(x).count(v));
        }
        assert(m1 =~= m2);
        let a2 = a.drop_last();
        assert(sorted(a2)) by {
            assert forall|p: int, q: int| 0 <= p < q < a2.len() implies rec_le(#[trigger] a2[p], #[trigger] a2[q]) by {
                assert(a2[p] == a[p] && a2[q] == a[q]);
            }
        }
        let b2 = b.drop_last();
        assert(sorted(b2)) by {
            assert forall|p: int, q: int| 0 <= p < q < b2.len() implies rec_le(#[trigger] b2[p], #[trigger] b2[q]) by {
                assert(b2[p] == b[p] && b2[q] == b[q]);
            }
        }
        assert(distinct_instants(a2)) by {
            assert forall|p: int, q: int| 0 <= p < a2.len() && 0 <= q < a2.len() implies rfc3339_instant(
                (#[trigger] a2[p]).record.ts@,
            ) is Some && (rfc3339_instant(a2[p].record.ts@) == rfc3339_instant(
                (#[trigger] a2[q]).record.ts@,
            ) ==> a2[p] == a2[q]) by {
                assert(a2[p] == a[p] && a2[q] == a[q]);
            }
        }
        lemma_sorted_unique(a2, b2);
    }
}

/// What the writer does next while appending one record.
#[derive(Debug, Clone, Copy, PartialEq, Eq, Structural)]
pub enum AppendStep {
    /// The record is written.
    Done,
    /// Try the location with this index.
    Try(usize),
    /// Every location failed; report the last failure.
    GiveUp,
}

/// The next step of an append after `tried` locations out of `candidates`
/// were attempted, the last of them with outcome `last_written`: a failed
/// location (a lock held elsewhere included) hands over to the next one,
/// and the record is never dropped silently.
pub fn append_step(tried: usize, candidates: usize, last_written: bool) -> (r: AppendStep)
    ensures
        tried > 0 && last_written ==> r == AppendStep::Done,
        !(tried > 0 && last_written) && tried < candidates ==> r == AppendStep::Try(tried),
        !(tried > 0 && last_written) && tried >= candidates ==> r == AppendStep::GiveUp,
{
    if tried > 0 && last_written {
        AppendStep::Done
    } else if tried < candidates {
        AppendStep::Try(tried)
    } else {
        AppendStep::GiveUp
    }
}

pub open spec fn read_views(v: Seq<Option<Vec<StoredRecord>>>) -> Seq<Seq<StoredRecord>> {
    v.map_values(
        |o: Option<Vec<StoredRecord>>|
            match o {
                Some(b) => b@,
                None => Seq::empty(),
            },
    )
}

/// Whether some location could not be read.
pub open spec fn some_failed(v: Seq<Option<Vec<StoredRecord>>>) -> bool {
    exists|i: int| 0 <= i < v.len() && (#[trigger] v[i]) is None
}

/// Merges what was read from each location (`None` where reading failed).
/// Locations that could not be read are passed over while others yielded
/// records; when nothing was read and some read failed, the result is
/// `None` and that failure is the caller's to report.
pub fn merge_read_results(results: Vec<Option<Vec<StoredRecord>>>) -> (r: Option<Vec<StoredRecord>>)
    ensures
        match r {
            Some(rs) => sorted(rs@) && rs@.to_multiset() == read_views(results@).flatten().to_multiset()
                && (rs@.len() == 0 ==> !some_failed(results@)),
            None => some_failed(results@) && read_views(results@).flatten().len() == 0,
        },
{
    let ghost orig = results@;
    let ghost rv = read_views(orig);
    let mut batches: Vec<Vec<StoredRecord>> = Vec::new();
    let mut failed = false;
    let mut results = results;
    let n = results.len();
    let mut k: usize = 0;
    assert(batches@.map_values(|b: Vec<StoredRecord>| b@) =~= rv.subrange(0, 0));
    while k < n
        invariant
            n == results@.len(),
            n == orig.len(),
            rv == read_views(orig),
            k <= n,
            forall|j: int| k <= j < n ==> (#[trigger] results@[j]) == orig[j],
            batches@.map_values(|b: Vec<StoredRecord>| b@) == rv.subrange(0, k as int),
            failed == (exists|j: int| 0 <= j < k && (#[trigger] orig[j]) is None),
        decreases n - k,
    {
        let mut slot: Option<Vec<StoredRecord>> = None;
        results.set_and_swap(k, &mut slot);
        let ghost before = batches@.map_values(|b: Vec<StoredRecord>| b@);
        match slot {
            Some(b) => {
                batches.push(b);
            },
            None => {
                failed = true;
                batches.push(Vec::new());
            },
        }
        assert(batches@.map_values(|b: Vec<StoredRecord>| b@) =~= before.push(rv[k as int]));
        assert(rv.subrange(0, k + 1) =~= rv.subrange(0, k as int).push(rv[k as int]));
        k = k + 1;
    }
    assert(rv.subrange(0, k as int) =~= rv);
    let merged = merge_records(batches);
    proof {
        assert(merged@.len() == merged@.to_multiset().len()) by {
            broadcast use vstd::seq_lib::group_to_multiset_ensures;
        }
        assert(rv.flatten().len() == rv.flatten().to_multiset().len()) by {
            broadcast use vstd::seq_lib::group_to_multiset_ensures;
        }
    }
    if merged.len() == 0 && failed {
        None
    } else {
        Some(merged)
    }
}

} // verus!
