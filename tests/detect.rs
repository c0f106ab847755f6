use rt::detect::{detect_runner, detect_runners, find_justfile, runner_command, Runner};

fn names(list: &[&str]) -> Vec<String> {
    list.iter().map(|s| s.to_string()).collect()
}

#[test]
fn detect_none_returns_error() {
    let err = detect_runner("/tmp/project", &Vec::new()).unwrap_err();
    assert_eq!(err.cwd, "/tmp/project");
}

#[test]
fn detect_prefers_justfile_over_others() {
    let files = names(&["Makefile", "Makefile.toml", "maskfile.md", "Taskfile.yml", "justfile"]);
    let detection = detect_runner("/tmp/project", &files).unwrap();
    assert_eq!(detection.runner, Runner::Justfile);
    let name = detection.runner_file.rsplit('/').next().unwrap();
    assert!(name.eq_ignore_ascii_case("justfile"));
    assert!(detection.runner_file.starts_with("/tmp/project/"));
}

#[test]
fn detect_prefers_taskfile_yml_over_yaml() {
    let files = names(&["Taskfile.yml", "Taskfile.yaml"]);
    let detection = detect_runner("/tmp/project", &files).unwrap();
    assert_eq!(detection.runner, Runner::Taskfile);
    assert_eq!(detection.runner_file, "/tmp/project/Taskfile.yml");
}

#[test]
fn runner_command_mapping() {
    assert_eq!(runner_command(Runner::Justfile), "just");
    assert_eq!(runner_command(Runner::Taskfile), "task");
    assert_eq!(runner_command(Runner::Maskfile), "mask");
    assert_eq!(runner_command(Runner::Mise), "mise");
    assert_eq!(runner_command(Runner::CargoMake), "cargo");
    assert_eq!(runner_command(Runner::Makefile), "make");
}

#[test]
fn detect_runners_returns_all_in_priority_order() {
    let files = names(&[
        "Makefile",
        "Makefile.toml",
        "mise.toml",
        "maskfile.md",
        "Taskfile.yml",
        "justfile",
    ]);
    let detections = detect_runners("/tmp/project", &files).unwrap();
    let runners: Vec<Runner> = detections.into_iter().map(|d| d.runner).collect();
    assert_eq!(
        runners,
        vec![
            Runner::Justfile,
            Runner::Taskfile,
            Runner::Maskfile,
            Runner::Mise,
            Runner::CargoMake,
            Runner::Makefile,
        ]
    );
}

#[test]
fn detect_runners_deduplicates_case_variants() {
    let files = names(&["Justfile", "justfile", "Taskfile.yml", "taskfile.yaml"]);
    let detections = detect_runners("/tmp/project", &files).unwrap();
    let runners: Vec<Runner> = detections.iter().map(|d| d.runner).collect();
    assert_eq!(runners, vec![Runner::Justfile, Runner::Taskfile]);
    assert_eq!(detections[0].runner_file, "/tmp/project/Justfile");
}

#[test]
fn detect_runners_without_files_is_an_error() {
    assert_eq!(detect_runners("dir/", &Vec::new()).unwrap_err().cwd, "dir/");
}

#[test]
fn runner_file_joins_without_doubling_separators() {
    let files = names(&["Makefile"]);
    assert_eq!(detect_runner("a/", &files).unwrap().runner_file, "a/Makefile");
    assert_eq!(detect_runner("", &files).unwrap().runner_file, "Makefile");
}

#[test]
fn find_justfile_prefers_capitalised_name() {
    assert_eq!(
        find_justfile("/p", &names(&["justfile", "Justfile"])),
        Some("/p/Justfile".to_string())
    );
    assert_eq!(find_justfile("/p", &names(&["justfile"])), Some("/p/justfile".to_string()));
    assert_eq!(find_justfile("/p", &names(&["Makefile"])), None);
}
