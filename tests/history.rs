use rt::detect::Runner;
use rt::history::{
    append_step, history_path_candidates, merge_read_results, merge_records, sort_records,
    instant_le, timestamp_le, AppendStep, HistoryEngine,
    HistoryRecord, HistoryStore, RecordInput, ShellRecordInput, StoredRecord,
};

fn sample_record(ts: &str, cmd: &str, exit_code: i32) -> HistoryRecord {
    HistoryRecord {
        v: 1,
        ts: ts.to_string(),
        cmd: cmd.to_string(),
        cwd: "/repo".to_string(),
        exit_code,
        duration_ms: 120,
        engine: Some(HistoryEngine::Make),
        target: Some("build".to_string()),
        file: Some("/repo/Makefile".to_string()),
        hostname: None,
        user: None,
    }
}

fn stored(ts: &str, cmd: &str) -> StoredRecord {
    StoredRecord {
        raw: cmd.to_string(),
        record: sample_record(ts, cmd, 0),
    }
}

fn commands(records: Vec<StoredRecord>) -> Vec<String> {
    records.into_iter().map(|r| r.record.cmd).collect()
}

#[test]
fn history_path_candidates_include_home_fallback() {
    let paths = history_path_candidates(Some("/tmp/state"), Some("/tmp/home"));
    assert_eq!(
        paths,
        vec![
            "/tmp/state/rt/history.jsonl".to_string(),
            "/tmp/home/.local/state/rt/history.jsonl".to_string(),
            "/tmp/home/.rt/history.jsonl".to_string(),
        ]
    );
}

#[test]
fn history_path_candidates_fall_back_without_xdg() {
    let paths = history_path_candidates(None, Some("/tmp/home"));
    assert_eq!(
        paths,
        vec![
            "/tmp/home/.local/state/rt/history.jsonl".to_string(),
            "/tmp/home/.rt/history.jsonl".to_string()
        ]
    );
}

#[test]
fn history_path_candidates_fall_back_to_dot_rt_without_home() {
    let paths = history_path_candidates(None, None);
    assert_eq!(paths, vec![".rt/history.jsonl".to_string()]);
}

#[test]
fn from_input_sets_required_and_optional_fields() {
    let record = HistoryRecord::from_input(RecordInput {
        runner: Runner::Justfile,
        command: "just test",
        task: "test",
        cwd: "/repo",
        exit_code: 7,
        duration_ms: 34,
        runner_file: Some("/repo/justfile"),
        hostname: Some("  box  "),
        user: Some("   "),
    });
    assert_eq!(record.v, 1);
    assert_eq!(record.cmd, "just test");
    assert_eq!(record.cwd, "/repo");
    assert_eq!(record.exit_code, 7);
    assert_eq!(record.duration_ms, 34);
    assert_eq!(record.engine, Some(HistoryEngine::Just));
    assert_eq!(record.target.as_deref(), Some("test"));
    assert_eq!(record.file.as_deref(), Some("/repo/justfile"));
    assert!(record.ts.contains('T'));
    assert_eq!(record.hostname.as_deref(), Some("box"));
    assert_eq!(record.user, None);
}

#[test]
fn from_shell_input_sets_shell_engine_without_target_or_file() {
    let record = HistoryRecord::from_shell_input(ShellRecordInput {
        command: "make build",
        cwd: "/repo",
        exit_code: 3,
        duration_ms: 11,
        hostname: None,
        user: None,
    });
    assert_eq!(record.engine, Some(HistoryEngine::Shell));
    assert!(record.target.is_none());
    assert!(record.file.is_none());
    assert_eq!(record.cmd, "make build");
    assert_eq!(record.cwd, "/repo");
    assert_eq!(record.exit_code, 3);
}

#[test]
fn read_from_paths_merges_and_sorts_by_timestamp() {
    let first = vec![
        stored("2026-02-21T12:02:00+09:00", "make c"),
        stored("2026-02-21T12:03:00+09:00", "make d"),
    ];
    let second = vec![stored("2026-02-21T12:01:00+09:00", "make b")];
    let records = merge_records(vec![first, second]);
    assert_eq!(
        commands(records),
        vec!["make b".to_string(), "make c".to_string(), "make d".to_string()]
    );
}

#[test]
fn merge_order_does_not_depend_on_which_location_comes_first() {
    let a = vec![
        stored("2026-02-21T12:00:00+09:00", "a1"),
        stored("2026-02-21T12:04:00+09:00", "a2"),
    ];
    let b = vec![
        stored("2026-02-21T12:02:00+09:00", "b1"),
        stored("2026-02-21T12:06:00+09:00", "b2"),
    ];
    let ab = commands(merge_records(vec![a.clone(), b.clone()]));
    let ba = commands(merge_records(vec![b, a]));
    assert_eq!(ab, vec!["a1", "b1", "a2", "b2"]);
    assert_eq!(ab, ba);
}

#[test]
fn timestamps_compare_by_instant_across_offsets() {
    assert!(timestamp_le("2026-02-21T03:00:00Z", "2026-02-21T12:30:00+09:00"));
    assert!(!timestamp_le("2026-02-21T12:30:00+09:00", "2026-02-21T03:00:00Z"));
    let records = sort_records(vec![
        stored("2026-02-21T12:30:00+09:00", "later"),
        stored("2026-02-21T03:00:00Z", "earlier"),
    ]);
    assert_eq!(commands(records), vec!["earlier", "later"]);
}

#[test]
fn unparseable_timestamps_sort_last_in_text_order() {
    let records = sort_records(vec![
        stored("zeta", "z"),
        stored("alpha", "a"),
        stored("2026-02-21T12:00:00+09:00", "t"),
    ]);
    assert_eq!(commands(records), vec!["t", "a", "z"]);
}

#[test]
fn equal_timestamps_keep_their_order() {
    let records = sort_records(vec![
        stored("2026-02-21T12:00:00+09:00", "first"),
        stored("2026-02-21T12:00:00+09:00", "second"),
    ]);
    assert_eq!(commands(records), vec!["first", "second"]);
    assert!(merge_records(Vec::new()).is_empty());
}

#[test]
fn store_keeps_its_path() {
    let store = HistoryStore::new("/tmp/h.jsonl".to_string());
    assert_eq!(store.path, "/tmp/h.jsonl");
}

#[test]
fn append_moves_to_the_next_location_until_all_fail() {
    assert_eq!(append_step(0, 3, false), AppendStep::Try(0));
    assert_eq!(append_step(1, 3, false), AppendStep::Try(1));
    assert_eq!(append_step(2, 3, true), AppendStep::Done);
    assert_eq!(append_step(3, 3, false), AppendStep::GiveUp);
    assert_eq!(append_step(0, 0, false), AppendStep::GiveUp);
}

#[test]
fn read_ignores_unreadable_location_if_others_work() {
    let records = merge_read_results(vec![
        None,
        Some(vec![stored("2026-02-21T12:04:00+09:00", "make e")]),
    ])
    .unwrap();
    assert_eq!(records.len(), 1);
    assert_eq!(records[0].record.cmd, "make e");
    assert!(merge_read_results(vec![None, Some(Vec::new())]).is_none());
    assert_eq!(merge_read_results(vec![Some(Vec::new())]), Some(Vec::new()));
}

#[test]
fn instants_order_before_unparsed_text() {
    assert!(instant_le(Some(1), Some(2), "b", "a"));
    assert!(!instant_le(Some(3), Some(2), "a", "b"));
    assert!(instant_le(Some(5), None, "z", "a"));
    assert!(!instant_le(None, Some(5), "a", "z"));
    assert!(instant_le(None, None, "abc", "abd"));
    assert!(!instant_le(None, None, "b", "a"));
}
