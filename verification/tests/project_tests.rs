use vibe_coder::inserter::CodeInserter;
use vibe_coder::project::{Project, ProjectError, ReadResolution, TreeEvent, WalkEntry};

fn entry(path: &str) -> WalkEntry {
    WalkEntry { path: path.to_string(), is_file: true }
}

#[test]
fn test_project_load() {
    let project = Project::load("ws".to_string(), true, &Vec::new());
    assert!(project.is_ok());
}

#[test]
fn test_project_load_missing_root() {
    let e = Project::load("nowhere".to_string(), false, &Vec::new()).unwrap_err();
    assert_eq!(e.message(), "Path does not exist: nowhere");
}

#[test]
fn test_search() {
    let entries = vec![entry("ws/test.rs")];
    let project = Project::load("ws".to_string(), true, &entries).unwrap();
    let contents = vec![Some("fn main() {}".to_string())];
    let results = project.search("main", &contents).unwrap();
    assert!(!results.is_empty());
}

#[test]
fn test_search_scenario_main() {
    let entries = vec![entry("ws/src/main.rs")];
    let project = Project::load("ws".to_string(), true, &entries).unwrap();
    let contents = vec![Some("fn main() {}".to_string())];
    let results = project.search("main", &contents).unwrap();
    assert!(results.contains(&"File: src/main.rs".to_string()));
    assert!(results.contains(&"src/main.rs:1 - fn main() {}".to_string()));
}

#[test]
fn test_search_case_insensitive() {
    let entries = vec![entry("ws/src/main.rs")];
    let project = Project::load("ws".to_string(), true, &entries).unwrap();
    let contents = vec![Some("fn MAIN() {}".to_string())];
    let lower = project.search("main", &contents).unwrap();
    let upper = project.search("MAIN", &contents).unwrap();
    let mixed = project.search("MaIn", &contents).unwrap();
    assert_eq!(lower, upper);
    assert_eq!(lower, mixed);
    assert!(!lower.is_empty());
}

#[test]
fn test_search_order_file_major_then_lines() {
    let entries = vec![entry("ws/a.rs"), entry("ws/b_main.rs")];
    let project = Project::load("ws".to_string(), true, &entries).unwrap();
    let contents = vec![
        Some("// main here\nfn main() {}".to_string()),
        Some("fn not_it() {}\n// main again".to_string()),
    ];
    let results = project.search("main", &contents).unwrap();
    assert_eq!(
        results,
        vec![
            "File: b_main.rs".to_string(),
            "a.rs:1 - // main here".to_string(),
            "a.rs:2 - fn main() {}".to_string(),
            "b_main.rs:2 - // main again".to_string(),
        ],
    );
}

#[test]
fn test_search_strips_carriage_returns() {
    let entries = vec![entry("ws/a.rs")];
    let project = Project::load("ws".to_string(), true, &entries).unwrap();
    let contents = vec![Some("fn a() {}\r\n  fn main() {}\r\n".to_string())];
    let results = project.search("main", &contents).unwrap();
    assert_eq!(results, vec!["a.rs:2 - fn main() {}".to_string()]);
}

#[test]
fn test_search_case_insensitive_unicode() {
    let entries = vec![entry("ws/src/caf\u{e9}.rs")];
    let project = Project::load("ws".to_string(), true, &entries).unwrap();
    let contents = vec![Some("let caf\u{e9} = 1;".to_string())];
    let lower = project.search("caf\u{e9}", &contents).unwrap();
    let upper = project.search("CAF\u{c9}", &contents).unwrap();
    assert_eq!(lower, upper);
    assert_eq!(lower.len(), 2);
}

#[test]
fn test_search_unreadable_files_skipped() {
    let entries = vec![entry("ws/a.rs"), entry("ws/b.rs")];
    let project = Project::load("ws".to_string(), true, &entries).unwrap();
    let contents = vec![None, Some("fn a() {}".to_string())];
    let results = project.search("fn", &contents).unwrap();
    assert_eq!(results, vec!["b.rs:1 - fn a() {}".to_string()]);
}

#[test]
fn test_scan_filters_and_keeps_order() {
    let entries = vec![
        entry("ws/src/main.rs"),
        entry("ws/README.md"),
        WalkEntry { path: "ws/src".to_string(), is_file: false },
        entry("ws/src/lib.rs"),
        entry("elsewhere/x.rs"),
        entry("ws/.rs"),
    ];
    let project = Project::load("ws".to_string(), true, &entries).unwrap();
    let files = project.list_rust_files().unwrap();
    assert_eq!(files, vec!["src/main.rs".to_string(), "src/lib.rs".to_string()]);
}

#[test]
fn test_scan_idempotent() {
    let entries = vec![entry("ws/src/main.rs"), entry("ws/src/lib.rs")];
    let mut project = Project::load("ws".to_string(), true, &entries).unwrap();
    let before = project.list_rust_files().unwrap();
    project.scan_rust_files(&entries);
    let after = project.list_rust_files().unwrap();
    assert_eq!(before, after);
}

#[test]
fn test_relative_path() {
    let project = Project::load("ws".to_string(), true, &Vec::new()).unwrap();
    assert_eq!(project.relative_path("ws/src/a.rs").unwrap(), "src/a.rs");
    assert_eq!(project.relative_path("ws").unwrap(), "");
    let e = project.relative_path("other/src/a.rs").unwrap_err();
    assert_eq!(e.message(), "Failed to get relative path: other/src/a.rs");
}

#[test]
fn test_full_path_join() {
    let project = Project::load("ws".to_string(), true, &Vec::new()).unwrap();
    assert_eq!(project.full_path("src/a.rs"), "ws/src/a.rs");
    assert_eq!(project.full_path("/abs/a.rs"), "/abs/a.rs");
}

#[test]
fn test_resolve_read() {
    let entries = vec![entry("ws/src/deep/mod_a.rs")];
    let project = Project::load("ws".to_string(), true, &entries).unwrap();
    match project.resolve_read("src/x.rs", true) {
        ReadResolution::Direct { path } => assert_eq!(path, "ws/src/x.rs"),
        _ => panic!("expected a direct resolution"),
    }
    match project.resolve_read("deep/mod_a.rs", false) {
        ReadResolution::Indexed { path } => assert_eq!(path, "ws/src/deep/mod_a.rs"),
        _ => panic!("expected an indexed resolution"),
    }
    assert!(matches!(project.resolve_read("missing.rs", false), ReadResolution::Missing));
    let not_found = ProjectError::FileNotFound { path: "missing.rs".to_string() };
    assert_eq!(not_found.message(), "File not found: missing.rs");
}

#[test]
fn test_insert_code_round_trip() {
    let inserter = CodeInserter::new();
    let fresh = inserter.insert_code("", "fn hello() {}");
    assert_eq!(fresh, "fn hello() {}");
    let merged = inserter.insert_code("fn a() {}", "fn b() {}");
    assert_eq!(merged, "fn a() {}\n\nfn b() {}");
    assert!(merged.contains("fn b() {}"));
    assert!(merged.starts_with("fn a() {}"));
}

#[test]
fn test_module_registration_scenario() {
    let inserter = CodeInserter::new();
    let created = inserter.insert_code("", "fn hello() {}");
    assert_eq!(created, "fn hello() {}");
    assert!(Project::needs_module_registration("src/new_mod.rs", false));
    assert!(!Project::needs_module_registration("src/new_mod.rs", true));
    assert!(!Project::needs_module_registration("docs/new_mod.rs", false));
    assert_eq!(Project::module_name_of("src/new_mod.rs").unwrap(), "new_mod");
    assert_eq!(Project::module_name_of("src/nested/leaf.rs").unwrap(), "leaf");
    assert!(Project::module_name_of("src/notes.txt").is_none());
    assert_eq!(Project::registration_entry(true, false).unwrap(), "src/main.rs");
    assert_eq!(Project::registration_entry(false, true).unwrap(), "src/lib.rs");
    assert_eq!(Project::registration_entry(true, true).unwrap(), "src/main.rs");
    assert!(Project::registration_entry(false, false).is_none());
    let updated = Project::plan_registration("fn main() {}", "new_mod").unwrap();
    assert_eq!(updated, "fn main() {}\n\nmod new_mod;");
    assert!(Project::plan_registration(&updated, "new_mod").is_none());
}

#[test]
fn test_directory_structure_rendering() {
    let project = Project::load("ws".to_string(), true, &Vec::new()).unwrap();
    let events = vec![
        TreeEvent::Open { name: "root".to_string(), is_last: true },
        TreeEvent::Open { name: "src".to_string(), is_last: false },
        TreeEvent::Open { name: "main.rs".to_string(), is_last: true },
        TreeEvent::Close,
        TreeEvent::Close,
        TreeEvent::Open { name: "Cargo.toml".to_string(), is_last: true },
        TreeEvent::Close,
        TreeEvent::Close,
    ];
    let out = project.get_directory_structure(&events);
    assert_eq!(out, "└── root\n    ├── src\n    │   └── main.rs\n    └── Cargo.toml\n");
}
