use rt::command::{
    command_to_shell_string, format_history_entry, history_format, preview_command,
    quote_shell_arg, shell_escape, HistoryFormat,
};
use rt::detect::Runner;

#[test]
fn format_history_entry_for_plain() {
    let line = format_history_entry(HistoryFormat::Plain, "just build", 1234);
    assert_eq!(line, "just build\n");
}

#[test]
fn format_history_entry_for_zsh_extended() {
    let line = format_history_entry(HistoryFormat::ZshExtended, "just build", 1234);
    assert_eq!(line, ": 1234:0;just build\n");
}

#[test]
fn format_history_entry_zero_time() {
    let line = format_history_entry(HistoryFormat::ZshExtended, "ls", 0);
    assert_eq!(line, ": 0:0;ls\n");
}

#[test]
fn format_command_preview_renders_simple_command() {
    let preview = preview_command(Runner::Justfile, "test", &vec!["--verbose".to_string()]);
    assert_eq!(preview, "just test --verbose");
}

#[test]
fn format_command_preview_quotes_special_args() {
    let preview = preview_command(
        Runner::Justfile,
        "test",
        &vec![
            "hello world".to_string(),
            "a'b".to_string(),
            "$HOME".to_string(),
        ],
    );
    assert_eq!(preview, "just test 'hello world' 'a'\\''b' '$HOME'");
}

#[test]
fn preview_command_handles_runner_specific_prefixes() {
    assert_eq!(preview_command(Runner::Mise, "build", &Vec::new()), "mise run build");
    assert_eq!(preview_command(Runner::CargoMake, "build", &Vec::new()), "cargo make build");
}

#[test]
fn preview_quotes_empty_arguments() {
    assert_eq!(quote_shell_arg(""), "''");
    assert_eq!(quote_shell_arg("plain"), "plain");
    assert_eq!(preview_command(Runner::Makefile, "", &Vec::new()), "make ''");
}

#[test]
fn command_to_shell_string_quotes_special_chars() {
    let args = vec![
        "test-all".to_string(),
        "--name=O'Reilly".to_string(),
        "two words".to_string(),
    ];
    let line = command_to_shell_string("just", &args);
    assert_eq!(line, "just test-all '--name=O'\"'\"'Reilly' 'two words'");
}

#[test]
fn command_to_shell_string_sanitizes_newlines() {
    let args = vec!["run\nname".to_string(), "line\rbreak".to_string()];
    let line = command_to_shell_string("task", &args);
    assert_eq!(line, "task 'run name' 'line break'");
}

#[test]
fn shell_escape_keeps_plain_words() {
    assert_eq!(shell_escape("a/b.c:d,e=f+g@h%i_j-k"), "a/b.c:d,e=f+g@h%i_j-k");
    assert_eq!(shell_escape(""), "''");
    assert_eq!(shell_escape("é"), "'é'");
}

#[test]
fn history_format_detects_zsh_extended_history() {
    let lines = vec![": 1738896400:0;ls -la".to_string()];
    assert_eq!(history_format(Some("/bin/zsh"), &lines), HistoryFormat::ZshExtended);
}

#[test]
fn history_format_defaults_to_plain_for_non_zsh() {
    let lines = vec![": 1738896400:0;ls -la".to_string()];
    assert_eq!(history_format(Some("/bin/bash"), &lines), HistoryFormat::Plain);
}

#[test]
fn history_format_reads_first_non_blank_line() {
    let lines = vec!["".to_string(), "  ".to_string(), "ls -la".to_string(), ": 1:0;x".to_string()];
    assert_eq!(history_format(Some("zsh"), &lines), HistoryFormat::Plain);
    let lines = vec!["".to_string(), ": 1:0;x".to_string()];
    assert_eq!(history_format(Some("/usr/bin/zsh/"), &lines), HistoryFormat::ZshExtended);
    assert_eq!(history_format(None, &lines), HistoryFormat::Plain);
    assert_eq!(history_format(Some("zsh"), &Vec::new()), HistoryFormat::Plain);
}
