use rt::cli::{
    build_history_choices, build_passthrough_plan, collect_passthrough, format_history_timestamp,
    normalize_passthrough, split_interactive_passthrough, Cli, PassthroughPlan, PassthroughStep,
    RawArgs,
};
use rt::detect::{Detection, Runner};
use rt::history::{HistoryRecord, StoredRecord};

#[test]
fn normalize_passthrough_strips_separator_only_when_first() {
    assert_eq!(
        normalize_passthrough(vec!["--".into(), "foo".into(), "--bar".into()]),
        vec!["foo".to_string(), "--bar".to_string()]
    );
    assert_eq!(
        normalize_passthrough(vec!["foo".into(), "--".into(), "bar".into()]),
        vec!["foo".to_string(), "--".to_string(), "bar".to_string()]
    );
    assert!(normalize_passthrough(Vec::new()).is_empty());
}

#[test]
fn split_interactive_passthrough_handles_whitespace() {
    assert_eq!(
        split_interactive_passthrough("foo  bar --baz"),
        vec!["foo".to_string(), "bar".to_string(), "--baz".to_string()]
    );
    assert!(split_interactive_passthrough("").is_empty());
    assert!(split_interactive_passthrough("   ").is_empty());
}

#[test]
fn prompt_passthrough_prefers_cli_passthrough() {
    let detection = Detection {
        runner: Runner::Taskfile,
        runner_file: "Taskfile.yml".to_string(),
    };
    let passthrough = vec!["--flag".to_string(), "value".to_string()];
    let result = collect_passthrough(&detection, "", "build", &passthrough, false);
    assert_eq!(result, PassthroughStep::Ready(passthrough));
}

#[test]
fn collect_passthrough_asks_for_missing_required_args() {
    let detection = Detection {
        runner: Runner::Justfile,
        runner_file: "justfile".to_string(),
    };
    let result = collect_passthrough(&detection, "deploy ENV TARGET:\n", "deploy", &vec!["prod".to_string()], false);
    assert_eq!(
        result,
        PassthroughStep::Prompt(PassthroughPlan {
            initial_passthrough: vec!["prod".to_string()],
            missing_required: vec!["TARGET".to_string()],
            prompt_optional_args: false,
        })
    );
}

#[test]
fn cli_from_raw_parses_args_flag_and_passthrough() {
    let raw = RawArgs {
        prompt_args: true,
        history: true,
        verbose: true,
        task: Some("build".to_string()),
        rest: vec!["--".to_string(), "--env".to_string(), "prod".to_string()],
    };
    let cli = Cli::from_raw(raw);
    assert!(cli.prompt_args);
    assert!(cli.history);
    assert!(cli.verbose);
    assert_eq!(cli.task.as_deref(), Some("build"));
    assert_eq!(cli.passthrough, vec!["--env".to_string(), "prod".to_string()]);
}

fn record(ts: &str, cmd: &str, exit_code: i32, duration_ms: u64) -> HistoryRecord {
    HistoryRecord {
        v: 1,
        ts: ts.to_string(),
        cmd: cmd.to_string(),
        cwd: "/repo".to_string(),
        exit_code,
        duration_ms,
        engine: None,
        target: None,
        file: None,
        hostname: None,
        user: None,
    }
}

#[test]
fn build_history_choices_returns_newest_first_with_limit() {
    let records = vec![
        StoredRecord {
            raw: "a".to_string(),
            record: record("2026-02-21T12:00:00+09:00", "make a", 0, 10),
        },
        StoredRecord {
            raw: "b".to_string(),
            record: record("2026-02-21T12:01:00+09:00", "make b", 1, 20),
        },
    ];
    let choices = build_history_choices(&records, 1);
    assert_eq!(choices.len(), 1);
    assert_eq!(choices[0].cmd, "make b");
    assert_eq!(choices[0].exit_code, 1);
    let all = build_history_choices(&records, 200);
    assert_eq!(all.len(), 2);
    assert_eq!(all[1].cmd, "make a");
}

#[test]
fn format_history_timestamp_truncates_rfc3339() {
    assert_eq!(
        format_history_timestamp("2026-02-21T12:34:56+09:00"),
        "2026-02-21 12:34:56".to_string()
    );
    assert_eq!(format_history_timestamp("short"), "short".to_string());
}

#[test]
fn build_passthrough_plan_without_args_flag_and_no_required() {
    let required = Vec::<String>::new();
    let cli = vec!["--verbose".to_string()];
    let plan = build_passthrough_plan(&required, &cli, false);
    assert_eq!(
        plan,
        PassthroughPlan {
            initial_passthrough: vec!["--verbose".to_string()],
            missing_required: Vec::new(),
            prompt_optional_args: false,
        }
    );
}

#[test]
fn build_passthrough_plan_with_args_flag_prompts_optional() {
    let required = Vec::<String>::new();
    let cli = vec!["--verbose".to_string()];
    let plan = build_passthrough_plan(&required, &cli, true);
    assert_eq!(
        plan,
        PassthroughPlan {
            initial_passthrough: vec!["--verbose".to_string()],
            missing_required: Vec::new(),
            prompt_optional_args: true,
        }
    );
}

#[test]
fn build_passthrough_plan_detects_missing_required_args() {
    let required = vec!["ENV".to_string(), "TARGET".to_string()];
    let cli = vec!["prod".to_string()];
    let plan = build_passthrough_plan(&required, &cli, false);
    assert_eq!(
        plan,
        PassthroughPlan {
            initial_passthrough: vec!["prod".to_string()],
            missing_required: vec!["TARGET".to_string()],
            prompt_optional_args: false,
        }
    );
}
