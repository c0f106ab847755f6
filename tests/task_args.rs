use rt::detect::{Detection, Runner};
use rt::task_args::{
    find_top_level_colon, has_top_level_char, is_valid_identifier, parse_required_from_just_header,
    required_args_for_task, split_top_level_whitespace,
};

fn justfile_detection() -> Detection {
    Detection {
        runner: Runner::Justfile,
        runner_file: "justfile".to_string(),
    }
}

#[test]
fn parse_required_from_just_header_extracts_only_required_args() {
    let header = "test TEST ENV='prod' +FILES *REST: build";
    let required = parse_required_from_just_header(header, "test").unwrap();
    assert_eq!(required, vec!["TEST".to_string(), "FILES".to_string()]);
}

#[test]
fn parse_required_from_just_header_ignores_non_recipe_lines() {
    assert!(parse_required_from_just_header("foo := 'bar'", "foo").is_none());
    assert!(parse_required_from_just_header("  test TEST:", "test").is_none());
    assert!(parse_required_from_just_header("# test TEST:", "test").is_none());
}

#[test]
fn parse_required_from_just_header_handles_colons_in_default_values() {
    let header = "deploy ENV='prod:blue' TARGET: build";
    let required = parse_required_from_just_header(header, "deploy").unwrap();
    assert_eq!(required, vec!["TARGET".to_string()]);
}

#[test]
fn parse_required_from_just_header_handles_spaces_in_default_values() {
    let header = "test MSG='hello world' TARGET: run";
    let required = parse_required_from_just_header(header, "test").unwrap();
    assert_eq!(required, vec!["TARGET".to_string()]);
}

#[test]
fn parse_required_from_just_header_ignores_star_and_includes_plus() {
    let header = "build +FILES *REST TARGET: run";
    let required = parse_required_from_just_header(header, "build").unwrap();
    assert_eq!(required, vec!["FILES".to_string(), "TARGET".to_string()]);
}

#[test]
fn parse_justfile_required_args_reads_matching_recipe() {
    let contents = r#"
build:
  echo build

test TEST ENV='prod':
  echo {{TEST}}
"#;
    let args = required_args_for_task(&justfile_detection(), contents, "test");
    assert_eq!(args, vec!["TEST".to_string()]);
}

#[test]
fn parse_justfile_required_args_with_colon_in_default() {
    let contents = r#"
deploy ENV='prod:blue' TARGET:
  echo "{{ENV}} {{TARGET}}"
"#;
    let args = required_args_for_task(&justfile_detection(), contents, "deploy");
    assert_eq!(args, vec!["TARGET".to_string()]);
}

#[test]
fn default_value_with_quoted_colon_and_space_is_one_parameter() {
    let required = parse_required_from_just_header("deploy ENV='prod:blue' TARGET:", "deploy");
    assert_eq!(required, Some(vec!["TARGET".to_string()]));
}

#[test]
fn header_of_another_task_is_no_match() {
    assert_eq!(parse_required_from_just_header("build TARGET:", "test"), None);
    assert_eq!(
        parse_required_from_just_header("deploy (x: 'a b' [c: {d}]) E=\"q:\" :", "test"),
        None
    );
}

#[test]
fn matching_header_without_parameters_is_empty_match() {
    assert_eq!(parse_required_from_just_header("build:", "build"), Some(Vec::new()));
    assert_eq!(parse_required_from_just_header("@build:", "build"), Some(Vec::new()));
}

#[test]
fn parameter_sigils_commas_and_invalid_names() {
    let required =
        parse_required_from_just_header("run $A, B=(x y) 9bad C-d [x]: dep", "run").unwrap();
    assert_eq!(required, vec!["A".to_string(), "C-d".to_string()]);
}

#[test]
fn top_level_scanning_skips_quoted_and_nested_text() {
    assert_eq!(find_top_level_colon("a 'x:y' (b:c) [d:e] {f:g} `h:i`: z"), Some(31));
    assert_eq!(find_top_level_colon("a \"b\\\":c\""), None);
    assert!(has_top_level_char("A=1", '='));
    assert!(!has_top_level_char("'A=1'", '='));
    assert_eq!(
        split_top_level_whitespace("a  'b c' (d e)"),
        vec!["a", "'b c'", "(d e)"]
    );
}

#[test]
fn identifiers_follow_parameter_name_rules() {
    assert!(is_valid_identifier("_x-1"));
    assert!(!is_valid_identifier(""));
    assert!(!is_valid_identifier("1x"));
    assert!(!is_valid_identifier("a.b"));
}

#[test]
fn required_args_of_other_runners_and_missing_tasks_are_empty() {
    let task = Detection {
        runner: Runner::Taskfile,
        runner_file: "Taskfile.yml".to_string(),
    };
    assert!(required_args_for_task(&task, "test A:", "test").is_empty());
    assert!(required_args_for_task(&justfile_detection(), "build X:\n", "test").is_empty());
    assert_eq!(
        required_args_for_task(&justfile_detection(), "test A:\ntest B:\n", "test"),
        vec!["A".to_string()]
    );
}
