use vibe_coder::assistant::{MessageRole, VibeRustCoderApp};
use vibe_coder::executor::ExecPlan;
use vibe_coder::project::WalkEntry;

#[test]
fn test_default_session() {
    let app = VibeRustCoderApp::default();
    assert!(app.project.is_none());
    assert!(app.chat_history.is_empty());
    assert!(app.auto_scroll);
    assert!(!app.show_process_window);
}

#[test]
fn test_execute_command_records_and_plans() {
    let mut app = VibeRustCoderApp::default();
    let plan = app.execute_command("help");
    assert!(matches!(plan, Some(ExecPlan::DoHelp)));
    assert_eq!(app.last_command, "help");
    assert_eq!(app.chat_history.len(), 1);
    assert_eq!(app.chat_history[0].role, MessageRole::User);
    assert_eq!(app.chat_history[0].content, "help");
}

#[test]
fn test_execute_command_parse_error() {
    let mut app = VibeRustCoderApp::default();
    let plan = app.execute_command("bogus stuff");
    assert!(plan.is_none());
    assert_eq!(app.chat_history.len(), 2);
    assert_eq!(app.chat_history[1].role, MessageRole::Error);
    assert_eq!(app.chat_history[1].content, "Parse error: Unknown command: bogus");
}

#[test]
fn test_record_result_messages() {
    let mut app = VibeRustCoderApp::default();
    app.record_result(false, Ok("done".to_string()));
    assert_eq!(app.chat_history.last().unwrap().role, MessageRole::Assistant);
    assert_eq!(app.chat_history.last().unwrap().content, "done");
    app.record_result(false, Err("broken".to_string()));
    assert_eq!(app.chat_history.last().unwrap().role, MessageRole::Error);
    assert_eq!(app.chat_history.last().unwrap().content, "Error: broken");
}

#[test]
fn test_parse_search_results_lines() {
    let mut app = VibeRustCoderApp::default();
    let output = "File: src/main.rs\nsrc/main.rs:12 - fn main() {}\nno match here\n";
    app.parse_search_results(output);
    assert_eq!(app.search_results.len(), 2);
    assert_eq!(app.search_results[0].file_path, "src/main.rs");
    assert_eq!(app.search_results[0].line_number, None);
    assert_eq!(app.search_results[0].content, "src/main.rs");
    assert_eq!(app.search_results[1].file_path, "src/main.rs");
    assert_eq!(app.search_results[1].line_number, Some(12));
    assert_eq!(app.search_results[1].content, "fn main() {}");
}

#[test]
fn test_record_search_result_parses_report() {
    let mut app = VibeRustCoderApp::default();
    let report = "Found 2 result(s) for 'main':\n\n1. File: src/main.rs\n2. src/main.rs:1 - fn main() {}\n";
    app.record_result(true, Ok(report.to_string()));
    // the numbered prefix keeps the first line from matching the file form,
    // so only the line match parses back out
    assert_eq!(app.search_results.len(), 1);
    assert_eq!(app.search_results[0].file_path, "2. src/main.rs");
    assert_eq!(app.search_results[0].line_number, Some(1));
    assert_eq!(app.search_results[0].content, "fn main() {}");
}

#[test]
fn test_load_project_messages() {
    let mut app = VibeRustCoderApp::default();
    app.project_path = "root".to_string();
    let entries = vec![WalkEntry { path: "root/src/main.rs".to_string(), is_file: true }];
    app.load_project(true, &entries);
    assert!(app.project.is_some());
    assert_eq!(app.chat_history.last().unwrap().role, MessageRole::System);
    assert_eq!(app.chat_history.last().unwrap().content, "Project loaded from: root");
    app.load_project(false, &entries);
    assert_eq!(app.chat_history.last().unwrap().role, MessageRole::Error);
    assert_eq!(
        app.chat_history.last().unwrap().content,
        "Failed to load project: Path does not exist: root",
    );
}

#[test]
fn test_analyze_text_report() {
    let mut app = VibeRustCoderApp::default();
    app.process_text = "fn main() {}\nfn add() {}".to_string();
    app.analyze_text();
    assert_eq!(
        app.process_analysis,
        "\u{1F4CA} Text Analysis\n\nLength: 24 characters\nLines: 2\nWords: 6\n\n\u{1F980} Detected: Rust code\n\nFunctions: 2\n\nUnique words: 4\n",
    );
}

#[test]
fn test_analyze_text_plain() {
    let mut app = VibeRustCoderApp::default();
    app.process_text = "just words here".to_string();
    app.analyze_text();
    assert_eq!(
        app.process_analysis,
        "\u{1F4CA} Text Analysis\n\nLength: 15 characters\nLines: 1\nWords: 3\n\nUnique words: 3\n",
    );
}

#[test]
fn test_summarize_text_short_and_long() {
    let mut app = VibeRustCoderApp::default();
    app.process_text = "a\nb".to_string();
    app.summarize_text();
    assert_eq!(app.process_analysis, "\u{1F4DD} Summary\n\na\nb");
    app.process_text = "1\n2\n3\n4\n5\n6\n7".to_string();
    app.summarize_text();
    assert_eq!(
        app.process_analysis,
        "\u{1F4DD} Summary\n\n1\n2\n3\n\n... (2 lines omitted) ...\n\n6\n7\n",
    );
}

#[test]
fn test_create_patch_skips_blank_lines() {
    let mut app = VibeRustCoderApp::default();
    app.process_text = "line1\n\n  \nline2".to_string();
    app.create_patch();
    assert_eq!(
        app.process_analysis,
        "--- Original\n+++ Modified\n@@ -1,1 +1,1 @@\n line1\n line2\n",
    );
}

#[test]
fn test_open_process_window() {
    let mut app = VibeRustCoderApp::default();
    app.process_analysis = "stale".to_string();
    app.open_process_window("body".to_string());
    assert!(app.show_process_window);
    assert_eq!(app.process_text, "body");
    assert_eq!(app.process_analysis, "");
}
