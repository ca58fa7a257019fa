use vibe_coder::command::Command;
use vibe_coder::executor::{CommandExecutor, ExecPlan, ToolKind};
use vibe_coder::project::{Project, WalkEntry};

fn loaded_project() -> Project {
    let entries = vec![WalkEntry { path: "ws/src/main.rs".to_string(), is_file: true }];
    Project::load("ws".to_string(), true, &entries).unwrap()
}

#[test]
fn test_execute_plans() {
    let ex = CommandExecutor::new();
    match ex.execute(Command::Build) {
        ExecPlan::DoToolchain { kind, args } => {
            assert_eq!(kind, ToolKind::Build);
            assert_eq!(args, vec!["build".to_string()]);
        },
        _ => panic!("expected a toolchain plan"),
    }
    match ex.execute(Command::Run { args: vec!["-v".to_string()] }) {
        ExecPlan::DoToolchain { kind, args } => {
            assert_eq!(kind, ToolKind::Run);
            assert_eq!(args, vec!["run".to_string(), "--".to_string(), "-v".to_string()]);
        },
        _ => panic!("expected a toolchain plan"),
    }
    match ex.execute(Command::Run { args: Vec::new() }) {
        ExecPlan::DoToolchain { kind, args } => {
            assert_eq!(kind, ToolKind::Run);
            assert_eq!(args, vec!["run".to_string()]);
        },
        _ => panic!("expected a toolchain plan"),
    }
    match ex.execute(Command::Test { test_name: Some("foo bar".to_string()) }) {
        ExecPlan::DoToolchain { kind, args } => {
            assert_eq!(kind, ToolKind::Test);
            assert_eq!(args, vec!["test".to_string(), "foo bar".to_string()]);
        },
        _ => panic!("expected a toolchain plan"),
    }
    match ex.execute(Command::Profile) {
        ExecPlan::DoToolchain { kind, args } => {
            assert_eq!(kind, ToolKind::Profile);
            assert_eq!(args, vec!["build".to_string(), "--release".to_string()]);
        },
        _ => panic!("expected a toolchain plan"),
    }
    assert!(matches!(ex.execute(Command::ListFiles), ExecPlan::DoListFiles));
    assert!(matches!(ex.execute(Command::Help), ExecPlan::DoHelp));
    match ex.execute(Command::ShowFunction { file: "a.rs".to_string(), function: "f".to_string() }) {
        ExecPlan::DoShowFunction { file, function } => {
            assert_eq!(file, "a.rs");
            assert_eq!(function, "f");
        },
        _ => panic!("expected a show-function plan"),
    }
}

#[test]
fn test_search_output_format() {
    let ex = CommandExecutor::new();
    let project = Some(loaded_project());
    let contents = vec![Some("fn main() {}".to_string())];
    let out = ex.search(&project, "main", &contents).unwrap();
    assert_eq!(
        out,
        "Found 2 result(s) for 'main':\n\n1. File: src/main.rs\n2. src/main.rs:1 - fn main() {}\n",
    );
    let none = ex.search(&project, "zzz", &contents).unwrap();
    assert_eq!(none, "No results found for 'zzz'");
}

#[test]
fn test_search_requires_project() {
    let ex = CommandExecutor::new();
    let e = ex.search(&None, "q", &Vec::new()).unwrap_err();
    assert_eq!(e.message(), "No project loaded");
}

#[test]
fn test_list_files_output() {
    let ex = CommandExecutor::new();
    let project = Some(loaded_project());
    let out = ex.list_files(&project).unwrap();
    assert_eq!(out, "Found 1 Rust file(s):\n\n1. src/main.rs\n");
    assert!(ex.list_files(&None).is_err());
}

#[test]
fn test_toolchain_reports() {
    let ex = CommandExecutor::new();
    assert_eq!(
        ex.toolchain_report(&ToolKind::Build, true, "out", "err"),
        "Build successful!\n\nouterr",
    );
    assert_eq!(ex.toolchain_report(&ToolKind::Build, false, "", "boom"), "Build failed!\n\nboom");
    assert_eq!(ex.toolchain_report(&ToolKind::Run, false, "o", "e"), "Run output:\n\noe");
    assert_eq!(ex.toolchain_report(&ToolKind::Test, true, "o", ""), "Test output:\n\no");
    assert_eq!(
        ex.toolchain_report(&ToolKind::Profile, true, "o", ""),
        "Profile build output:\n\no",
    );
}

#[test]
fn test_add_into_message() {
    let ex = CommandExecutor::new();
    assert_eq!(ex.add_into("src/x.rs"), "Code added to src/x.rs");
}

#[test]
fn test_show_file_output() {
    let ex = CommandExecutor::new();
    assert_eq!(ex.show_file("a.rs", "fn a() {}"), "Content of a.rs:\n\nfn a() {}");
}

#[test]
fn test_show_function_output() {
    let ex = CommandExecutor::new();
    let content = "fn add(a: i32, b: i32) -> i32 { a + b }";
    let out = ex.show_function("src/lib.rs", "add", content).unwrap();
    assert!(out.starts_with("Function 'add' in src/lib.rs:\n\n"));
    assert!(out.contains("add"));
    let e = ex.show_function("src/lib.rs", "nope", content).unwrap_err();
    assert_eq!(e.message(), "Function 'nope' not found");
}

#[test]
fn test_list_functions_output() {
    let ex = CommandExecutor::new();
    let out = ex.list_functions("f.rs", "fn one() {}\nfn two() {}").unwrap();
    assert!(out.starts_with("Functions in f.rs:\n\n1. fn one("));
    assert!(out.contains("\n2. fn two("));
}

#[test]
fn test_help_text() {
    let ex = CommandExecutor::new();
    let help = ex.help();
    assert!(help.starts_with("Available Commands:"));
    assert!(help.contains("search <query>"));
    assert!(help.contains("show <file>::<function>"));
}
