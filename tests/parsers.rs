use rt::detect::Runner;
use rt::parser::justfile::{
    parse_justfile_contents, parse_justfile_with_imports, resolve_import, LoadedFile, MissingImport,
};
use rt::parser::makefile::{parse_makefile_descriptions, parse_with_makefile_source};
use rt::parser::mask::MaskCommand;
use rt::parser::mise::MiseTask;
use rt::parser::{
    cargo_make, justfile, list_step, makefile, mask, mise, parse_tasks, taskfile, ListStep, Listing,
};
use rt::tasks::TaskItem;

fn text(s: &str) -> Listing {
    Listing::Text(s.to_string())
}

#[test]
fn cargo_make_parse_cargo_make_list() {
    let output = "\
Tasks:
build        Build the project
test         Run tests
";
    let tasks = cargo_make::parse(output);
    assert_eq!(tasks.len(), 2);
    assert_eq!(tasks[0].name, "build");
    assert_eq!(tasks[0].description.as_deref(), Some("Build the project"));
}

#[test]
fn justfile_parse_just_list() {
    let output = "\
Available recipes:
    build  # build project
    test
";
    let tasks = justfile::parse(output);
    assert_eq!(tasks.len(), 2);
    assert_eq!(tasks[0].name, "build");
    assert_eq!(tasks[0].description.as_deref(), Some("build project"));
    assert_eq!(tasks[1].name, "test");
    assert_eq!(tasks[1].description, None);
}

#[test]
fn makefile_parse_make_list() {
    let output = "\
all: deps build
.PHONY: all
install:
\t@echo install
%.o: %.c
";
    let tasks = makefile::parse(output);
    let names: Vec<&str> = tasks.iter().map(|t| t.name.as_str()).collect();
    assert_eq!(names, vec!["all", "install"]);
}

#[test]
fn parse_make_files_section() {
    let output = "\
# Files
all: deps build
install:
\t@echo install

# Finished Make data base
";
    let tasks = makefile::parse(output);
    let names: Vec<&str> = tasks.iter().map(|t| t.name.as_str()).collect();
    assert_eq!(names, vec!["all", "install"]);
}

#[test]
fn parse_make_comment_above_target() {
    let output = "\
# build main
build:
\tcc *.c -o main
";
    let tasks = makefile::parse(output);
    assert_eq!(tasks.len(), 1);
    assert_eq!(tasks[0].name, "build");
    assert_eq!(tasks[0].description.as_deref(), Some("build main"));
}

#[test]
fn parse_make_inline_comment() {
    let output = "\
build: # build main
\tcc *.c -o main
";
    let tasks = makefile::parse(output);
    assert_eq!(tasks.len(), 1);
    assert_eq!(tasks[0].name, "build");
    assert_eq!(tasks[0].description.as_deref(), Some("build main"));
}

#[test]
fn parse_make_uses_makefile_comments_as_description() {
    let output = "\
# Files
build:
\tcc *.c -o main
test-all: build
\t./test --all

# Finished Make data base
";
    let makefile_source = "\
# build main
build:
\tcc *.c -o main

# test everything
test-all: build
\t./test --all
";
    let tasks = parse_with_makefile_source(output, Some(makefile_source));
    assert_eq!(tasks.len(), 2);
    assert_eq!(tasks[0].name, "build");
    assert_eq!(tasks[0].description.as_deref(), Some("build main"));
    assert_eq!(tasks[1].name, "test-all");
    assert_eq!(tasks[1].description.as_deref(), Some("test everything"));
}

#[test]
fn parse_makefile_descriptions_ignores_variable_assignment() {
    let source = "\
# should not attach to variable
FOO := bar

# build main
build:
\tcc *.c -o main
";
    let descriptions = parse_makefile_descriptions(source);
    assert_eq!(descriptions.get("FOO"), None);
    assert_eq!(descriptions.get("build"), Some(&"build main".to_string()));
}

#[test]
fn make_dump_with_phony_and_pattern_rules() {
    let output = "\
# Not a target:
.DEFAULT:
# Files
.PHONY: all
all: deps build
%.o: %.c
$(OBJ): x
install:
\t@echo install
all: more
# Finished Make data base
late: x
";
    let tasks = makefile::parse(output);
    let names: Vec<&str> = tasks.iter().map(|t| t.name.as_str()).collect();
    assert_eq!(names, vec!["all", "install"]);
}

#[test]
fn make_inline_description_wins_and_source_does_not_override() {
    let output = "# keep\nbuild: # inline\nother:\n";
    let source = "# from source\nbuild:\n# other text\nother:\n";
    let tasks = parse_with_makefile_source(output, Some(source));
    assert_eq!(tasks[0].description.as_deref(), Some("inline"));
    assert_eq!(tasks[1].description.as_deref(), Some("other text"));
}

#[test]
fn parse_mask_introspect() {
    let commands = vec![
        MaskCommand {
            name: "build".to_string(),
            description: Some("Build project".to_string()),
            has_script: true,
            subcommands: Vec::new(),
        },
        MaskCommand {
            name: "gen".to_string(),
            description: Some("".to_string()),
            has_script: false,
            subcommands: vec![MaskCommand {
                name: "types".to_string(),
                description: Some("Generate types".to_string()),
                has_script: true,
                subcommands: Vec::new(),
            }],
        },
    ];
    let tasks = mask::parse(Some(&commands));
    assert_eq!(tasks.len(), 2);
    assert_eq!(tasks[0].name, "build");
    assert_eq!(tasks[0].description.as_deref(), Some("Build project"));
    assert_eq!(tasks[1].name, "gen types");
    assert_eq!(tasks[1].description.as_deref(), Some("Generate types"));
}

#[test]
fn parse_mask_invalid_json() {
    let tasks = mask::parse(None);
    assert!(tasks.is_empty());
}

#[test]
fn parse_mise_list() {
    let list = vec![
        MiseTask {
            name: "gen-bindings".to_string(),
            description: Some("Generates TS types".to_string()),
        },
        MiseTask {
            name: "gen-schema".to_string(),
            description: Some("".to_string()),
        },
    ];
    let tasks = mise::parse(Some(&list));
    assert_eq!(tasks.len(), 2);
    assert_eq!(tasks[0].name, "gen-bindings");
    assert_eq!(tasks[0].description.as_deref(), Some("Generates TS types"));
    assert_eq!(tasks[1].name, "gen-schema");
    assert_eq!(tasks[1].description, None);
}

#[test]
fn taskfile_parse_task_list() {
    let output = "\
task: Available tasks for this project:
* build: Build the project
* test: Run tests
";
    let tasks = taskfile::parse(output);
    assert_eq!(tasks.len(), 2);
    assert_eq!(tasks[0].name, "build");
    assert_eq!(tasks[0].description.as_deref(), Some("Build the project"));
}

#[test]
fn tasks_parse_just_list() {
    let output = "\
Available recipes:
    build  # build project
    test
";
    let tasks = parse_tasks(Runner::Justfile, &text(output));
    assert_eq!(tasks.len(), 2);
    assert_eq!(tasks[0].name, "build");
    assert_eq!(tasks[0].description.as_deref(), Some("build project"));
    assert_eq!(tasks[1].name, "test");
    assert_eq!(tasks[1].description, None);
}

#[test]
fn tasks_parse_task_list() {
    let output = "\
task: Available tasks for this project:
* build: Build the project
* test: Run tests
";
    let tasks = parse_tasks(Runner::Taskfile, &text(output));
    assert_eq!(tasks.len(), 2);
    assert_eq!(tasks[0].name, "build");
    assert_eq!(tasks[0].description.as_deref(), Some("Build the project"));
}

#[test]
fn tasks_parse_cargo_make_list() {
    let output = "\
Tasks:
build        Build the project
test         Run tests
";
    let tasks = parse_tasks(Runner::CargoMake, &text(output));
    assert_eq!(tasks.len(), 2);
    assert_eq!(tasks[0].name, "build");
    assert_eq!(tasks[0].description.as_deref(), Some("Build the project"));
}

#[test]
fn tasks_parse_make_list() {
    let output = "\
all: deps build
.PHONY: all
install:
\t@echo install
%.o: %.c
";
    let tasks = parse_tasks(Runner::Makefile, &text(output));
    let names: Vec<&str> = tasks.iter().map(|t| t.name.as_str()).collect();
    assert_eq!(names, vec!["all", "install"]);
}

#[test]
fn listing_of_another_dialect_yields_nothing() {
    assert!(parse_tasks(Runner::Maskfile, &text("build")).is_empty());
    assert!(parse_tasks(Runner::Justfile, &Listing::Mise(Some(Vec::new()))).is_empty());
    assert!(parse_tasks(Runner::Mise, &Listing::Mise(None)).is_empty());
}

#[test]
fn listings_with_only_banners_and_blanks_are_empty() {
    assert!(justfile::parse("Available recipes:\n\n   \n").is_empty());
    assert!(taskfile::parse("task: Available tasks\n\n").is_empty());
    assert!(cargo_make::parse("Tasks:\nBuild:\n").is_empty());
    assert!(makefile::parse("").is_empty());
}

#[test]
fn taskfile_dash_bullets_and_crlf_lines() {
    let tasks = taskfile::parse("- lint: Check\r\n* fmt:\r\n");
    assert_eq!(tasks.len(), 2);
    assert_eq!(tasks[0].name, "lint");
    assert_eq!(tasks[0].description.as_deref(), Some("Check"));
    assert_eq!(tasks[1].description, None);
}

fn loaded(source: &str, targets: Vec<Option<usize>>) -> LoadedFile {
    LoadedFile {
        parsed: parse_justfile_contents(source),
        targets,
    }
}

fn find<'a>(tasks: &'a [TaskItem], name: &str) -> &'a TaskItem {
    tasks.iter().find(|t| t.name == name).unwrap()
}

#[test]
fn justfile_contents_read_imports_comments_and_headers() {
    let parsed = parse_justfile_contents(
        "import 'a.just'\nimport? \"b.just\"\nimportant := 1\n\n# build it\nbuild: dep\n  echo\n# ignored\n\nx := 'a:b'\ntest A: # run tests\n",
    );
    let raws: Vec<(&str, bool)> = parsed.imports.iter().map(|i| (i.raw.as_str(), i.optional)).collect();
    assert_eq!(raws, vec![("a.just", false), ("b.just", true)]);
    assert_eq!(parsed.recipes.len(), 2);
    assert_eq!(parsed.recipes[0].name, "build");
    assert_eq!(parsed.recipes[0].description.as_deref(), Some("build it"));
    assert_eq!(parsed.recipes[1].name, "test");
    assert_eq!(parsed.recipes[1].description.as_deref(), Some("run tests"));
}

#[test]
fn root_definitions_override_imported_ones() {
    let files = vec![
        loaded("import 'a.just'\nimport 'b.just'\n# from root\nx:\n", vec![Some(1), Some(2)]),
        loaded("# from a\nx:\n# only a\ny:\n", Vec::new()),
        loaded("# from b\nz:\n", Vec::new()),
    ];
    let tasks = parse_justfile_with_imports(&files).unwrap();
    assert_eq!(find(&tasks, "x").description.as_deref(), Some("from root"));
    assert_eq!(find(&tasks, "y").description.as_deref(), Some("only a"));
    let names: Vec<&str> = tasks.iter().map(|t| t.name.as_str()).collect();
    assert_eq!(names, vec!["y", "z", "x"]);
}

#[test]
fn file_reached_twice_and_cycles_give_one_entry() {
    let files = vec![
        loaded("import 'a.just'\nimport 'b.just'\nroot:\n", vec![Some(1), Some(2)]),
        loaded("import 'c.just'\n", vec![Some(3)]),
        loaded("import 'c.just'\n", vec![Some(3)]),
        loaded("import 'root.just'\n# shared\ny:\n", vec![Some(0)]),
    ];
    let tasks = parse_justfile_with_imports(&files).unwrap();
    let count = tasks.iter().filter(|t| t.name == "y").count();
    assert_eq!(count, 1);
    assert_eq!(tasks.iter().filter(|t| t.name == "root").count(), 1);
}

#[test]
fn later_import_at_equal_depth_wins() {
    let files = vec![
        loaded("import 'nested.just'\nimport 'other.just'\nimport? 'missing.just'\n# from root\nroot:\n", vec![Some(1), Some(2), None]),
        loaded("import 'common.just'\n# from nested\nshared:\n# from nested recipe\nnested:\n", vec![Some(3)]),
        loaded("# from other\nshared:\n", Vec::new()),
        loaded("# from common\nshared:\n", Vec::new()),
    ];
    let tasks = parse_justfile_with_imports(&files).unwrap();
    assert_eq!(find(&tasks, "shared").description.as_deref(), Some("from other"));
    assert_eq!(find(&tasks, "nested").description.as_deref(), Some("from nested recipe"));
    assert_eq!(find(&tasks, "root").description.as_deref(), Some("from root"));
}

#[test]
fn missing_required_import_is_reported() {
    let files = vec![
        loaded("import? 'gone.just'\nimport 'a.just'\n", vec![None, Some(1)]),
        loaded("import 'lost.just'\n", vec![None]),
    ];
    assert_eq!(
        parse_justfile_with_imports(&files),
        Err(MissingImport { file: 1, import: 0 })
    );
    assert_eq!(parse_justfile_with_imports(&Vec::new()), Ok(Vec::new()));
}

#[test]
fn make_dump_scenario_lists_all_then_install() {
    let output = "\
# Files
.PHONY: all
all: deps build
install:
\t@echo install
%.o: %.c
";
    let tasks = makefile::parse(output);
    let names: Vec<&str> = tasks.iter().map(|t| t.name.as_str()).collect();
    assert_eq!(names, vec!["all", "install"]);
    assert!(tasks.iter().all(|t| t.description.is_none()));
}

#[test]
fn nameless_mise_and_mask_tasks_are_dropped() {
    let list = vec![
        MiseTask {
            name: "".to_string(),
            description: Some("no name".to_string()),
        },
        MiseTask {
            name: "lint".to_string(),
            description: None,
        },
    ];
    let tasks = mise::parse(Some(&list));
    assert_eq!(tasks.len(), 1);
    assert_eq!(tasks[0].name, "lint");

    let commands = vec![MaskCommand {
        name: "".to_string(),
        description: None,
        has_script: true,
        subcommands: vec![MaskCommand {
            name: "child".to_string(),
            description: None,
            has_script: true,
            subcommands: Vec::new(),
        }],
    }];
    let tasks = mask::parse(Some(&commands));
    let names: Vec<&str> = tasks.iter().map(|t| t.name.as_str()).collect();
    assert_eq!(names, vec!["child"]);
}

#[test]
fn imports_resolve_against_the_importing_file() {
    assert_eq!(resolve_import("/repo/justfile", "common.just", None), "/repo/common.just");
    assert_eq!(resolve_import("sub/justfile", "a/b.just", None), "sub/a/b.just");
    assert_eq!(resolve_import("justfile", "x.just", None), "x.just");
    assert_eq!(resolve_import("/justfile", "x.just", None), "/x.just");
    assert_eq!(resolve_import("/repo/justfile", "/etc/x.just", None), "/etc/x.just");
    assert_eq!(resolve_import("/repo/justfile", "~/x.just", Some("/home/u")), "/home/u/x.just");
    assert_eq!(resolve_import("/repo/justfile", "~/x.just", None), "/repo/~/x.just");
}

#[test]
fn phony_names_that_cannot_be_tasks_are_left_out() {
    let tasks = makefile::parse(".PHONY: $(ALL) all .DEFAULT %.o x=y Makefile\n");
    let names: Vec<&str> = tasks.iter().map(|t| t.name.as_str()).collect();
    assert_eq!(names, vec!["all"]);
    assert!(makefile::parse(".PHONY: $\n").is_empty());
}

#[test]
fn recipe_headers_split_outside_quotes() {
    let parsed = parse_justfile_contents(
        "test MSG='#1' TARGET: # runs\nfoo X='a:b'\nbar X='a:=b': dep\nx := 'a:b'\n",
    );
    let names: Vec<&str> = parsed.recipes.iter().map(|t| t.name.as_str()).collect();
    assert_eq!(names, vec!["test", "bar"]);
    assert_eq!(parsed.recipes[0].description.as_deref(), Some("runs"));
}

#[test]
fn listing_commands_are_tried_in_turn() {
    assert_eq!(list_step(Runner::Justfile, 0, 1, 2, ""), ListStep::Try(0));
    assert_eq!(list_step(Runner::Justfile, 1, 1, 0, "x"), ListStep::Parse);
    assert_eq!(list_step(Runner::CargoMake, 1, 3, 1, "out"), ListStep::Try(1));
    assert_eq!(list_step(Runner::CargoMake, 3, 3, 1, ""), ListStep::Fail);
    assert_eq!(list_step(Runner::Makefile, 1, 2, 1, "all:\n"), ListStep::Parse);
    assert_eq!(list_step(Runner::Makefile, 1, 2, 1, "  \n"), ListStep::Try(1));
}
