//! The assistant session model: the chat transcript, the loaded
//! workspace, clickable search results, and the text-processing helpers.
//! Rendering and every file-system or process step happen outside this
//! library; the session hands out plans and records their outcomes.

use vstd::prelude::*;
use vstd::string::*;
use crate::command::{parse_spec, Command};
use crate::executor::{plan_spec, CommandExecutor, ExecPlan};
use crate::project::{scan_spec, Project, ProjectErrorV, WalkEntry};
use crate::text::{
    count_occ, count_text, count_distinct, contains_sub, contains_text, dec_str, distinct_count,
    find_char, find_first, find_last, find_sub, find_text, fmt_usize, lemma_count_occ_contains,
    lemma_find_sub_props, lemma_rfind_char_props, lines_spec, parse_usize, parse_usize_spec,
    push_char, rfind_char, split_lines, split_whitespace_vec, split_ws, starts_with_text, trim,
    trim_spec,
};

verus! {

/// Who said one transcript entry.
#[derive(PartialEq, Eq, Structural, Clone, Copy, Debug)]
pub enum MessageRole {
    User,
    Assistant,
    System,
    Error,
}

/// One transcript entry.
pub struct ChatMessage {
    pub role: MessageRole,
    pub content: String,
    pub timestamp: String,
}

/// The mathematical form of a transcript entry.
pub struct ChatMessageV {
    pub role: MessageRole,
    pub content: Seq<char>,
    pub timestamp: Seq<char>,
}

impl DeepView for ChatMessage {
    type V = ChatMessageV;

    open spec fn deep_view(&self) -> ChatMessageV {
        ChatMessageV { role: self.role, content: self.content@, timestamp: self.timestamp@ }
    }
}

/// One clickable search result parsed back out of a search report.
pub struct SearchResult {
    pub file_path: String,
    pub line_number: Option<usize>,
    pub content: String,
}

/// The mathematical form of a search result.
pub struct SearchResultV {
    pub file_path: Seq<char>,
    pub line_number: Option<int>,
    pub content: Seq<char>,
}

impl DeepView for SearchResult {
    type V = SearchResultV;

    open spec fn deep_view(&self) -> SearchResultV {
        SearchResultV {
            file_path: self.file_path@,
            line_number: match self.line_number {
                Option::Some(v) => Option::Some(v as int),
                Option::None => Option::None,
            },
            content: self.content@,
        }
    }
}

/// Relies on chrono's `Local::now` and its `%H:%M:%S` formatter for the
/// current local time of day. The result depends on the clock, so nothing
/// is promised of it.
#[verifier::external_body]
fn now_hms() -> String {
    chrono::Local::now().format("%H:%M:%S").to_string()
}

/// One entry was appended to the transcript, with this role and content.
pub open spec fn appended(
    old_h: Seq<ChatMessageV>,
    new_h: Seq<ChatMessageV>,
    role: MessageRole,
    content: Seq<char>,
) -> bool {
    &&& new_h.len() == old_h.len() + 1
    &&& new_h.subrange(0, old_h.len() as int) == old_h
    &&& new_h.last().role == role
    &&& new_h.last().content == content
}

/// What one line of a search report parses back into: a file match, or a
/// content match with path, line number and snippet.
pub open spec fn parse_result_line(line: Seq<char>) -> Option<SearchResultV> {
    if "File: "@.is_prefix_of(line) {
        let f = line.subrange("File: "@.len() as int, line.len() as int);
        Option::Some(SearchResultV { file_path: f, line_number: Option::None, content: f })
    } else if find_char(line, ':') >= 0 {
        let d = find_sub(line, " - "@);
        if d >= 0 {
            let fl = line.subrange(0, d);
            let c = rfind_char(fl, ':');
            if c >= 0 {
                Option::Some(
                    SearchResultV {
                        file_path: trim_spec(fl.subrange(0, c)),
                        line_number: parse_usize_spec(trim_spec(fl.subrange(c + 1, fl.len() as int))),
                        content: line.subrange(d + 3, line.len() as int),
                    },
                )
            } else {
                Option::<SearchResultV>::None
            }
        } else {
            Option::<SearchResultV>::None
        }
    } else {
        Option::<SearchResultV>::None
    }
}

/// The results that a sequence of report lines parses back into.
pub open spec fn results_of_lines(ls: Seq<Seq<char>>) -> Seq<SearchResultV>
    decreases ls.len(),
{
    if ls.len() == 0 {
        Seq::empty()
    } else {
        results_of_lines(ls.drop_last()) + (match parse_result_line(ls.last()) {
            Option::Some(r) => seq![r],
            Option::None => Seq::<SearchResultV>::empty(),
        })
    }
}

/// The results that a search report parses back into, line by line.
pub open spec fn parse_results_spec(output: Seq<char>) -> Seq<SearchResultV> {
    results_of_lines(lines_spec(output))
}

/// The lines joined, each followed by a newline.
pub open spec fn join_nl(ls: Seq<Seq<char>>) -> Seq<char>
    decreases ls.len(),
{
    if ls.len() == 0 {
        Seq::empty()
    } else {
        join_nl(ls.drop_last()) + ls.last() + "\n"@
    }
}

/// The counts block for a text detected as source code.
pub open spec fn rust_counts_spec(text: Seq<char>) -> Seq<char> {
    if contains_sub(text, "fn "@) || contains_sub(text, "struct "@) || contains_sub(
        text,
        "impl "@,
    ) {
        "🦀 Detected: Rust code\n\n"@ + (if count_occ(text, "fn "@) > 0 {
            "Functions: "@ + dec_str(count_occ(text, "fn "@)) + "\n"@
        } else {
            Seq::<char>::empty()
        }) + (if count_occ(text, "struct "@) > 0 {
            "Structs: "@ + dec_str(count_occ(text, "struct "@)) + "\n"@
        } else {
            Seq::<char>::empty()
        }) + (if count_occ(text, "impl "@) > 0 {
            "Implementations: "@ + dec_str(count_occ(text, "impl "@)) + "\n"@
        } else {
            Seq::<char>::empty()
        }) + "\n"@
    } else {
        Seq::<char>::empty()
    }
}

/// The whole analysis report for a text: size counts, code detection,
/// and the number of distinct words.
pub open spec fn analysis_spec(text: Seq<char>) -> Seq<char> {
    "📊 Text Analysis\n\n"@ + "Length: "@ + dec_str(text.len() as int) + " characters\n"@ + "Lines: "@ + dec_str(lines_spec(text).len() as int) + "\n"@ + "Words: "@
        + dec_str(split_ws(text).len() as int) + "\n\n"@ + rust_counts_spec(text)
        + "Unique words: "@ + dec_str(distinct_count(split_ws(text))) + "\n"@
}

/// The summary of a text: short texts whole, longer ones as their first
/// three lines, an omission count, and their last two lines.
pub open spec fn summary_spec(text: Seq<char>) -> Seq<char> {
    let ls = lines_spec(text);
    "📝 Summary\n\n"@ + (if ls.len() <= 5 {
        text
    } else {
        join_nl(ls.subrange(0, 3)) + "\n... ("@ + dec_str(ls.len() - 5) + " lines omitted) ...\n\n"@
            + join_nl(ls.subrange(ls.len() - 2, ls.len() as int))
    })
}

/// The patch body: every line whose trimmed form is non-empty, each
/// prefixed with a space.
pub open spec fn patch_body(ls: Seq<Seq<char>>) -> Seq<char>
    decreases ls.len(),
{
    if ls.len() == 0 {
        Seq::empty()
    } else {
        patch_body(ls.drop_last()) + (if trim_spec(ls.last()).len() > 0 {
            " "@ + ls.last() + "\n"@
        } else {
            Seq::<char>::empty()
        })
    }
}

/// The whole patch for a text: a unified-diff header, then the body.
pub open spec fn patch_spec(text: Seq<char>) -> Seq<char> {
    "--- Original\n+++ Modified\n@@ -1,1 +1,1 @@\n"@ + patch_body(lines_spec(text))
}

/// One assistant session: the loaded workspace, the transcript, and the
/// text-processing window's state.
pub struct VibeRustCoderApp {
    pub project: Option<Project>,
    pub project_path: String,
    pub command_input: String,
    pub chat_history: Vec<ChatMessage>,
    pub command_executor: CommandExecutor,
    pub auto_scroll: bool,
    pub search_results: Vec<SearchResult>,
    pub last_command: String,
    pub show_process_window: bool,
    pub process_text: String,
    pub process_analysis: String,
    pub selected_text: String,
}

impl Default for VibeRustCoderApp {
    /// A fresh session: no workspace, an empty transcript, scrolling on.
    fn default() -> (r: VibeRustCoderApp)
        ensures
            r.project is None,
            r.project_path@ == Seq::<char>::empty(),
            r.command_input@ == Seq::<char>::empty(),
            r.chat_history@.len() == 0,
            r.auto_scroll == true,
            r.search_results@.len() == 0,
            r.last_command@ == Seq::<char>::empty(),
            r.show_process_window == false,
            r.process_text@ == Seq::<char>::empty(),
            r.process_analysis@ == Seq::<char>::empty(),
            r.selected_text@ == Seq::<char>::empty(),
    {
        VibeRustCoderApp {
            project: None,
            project_path: String::new(),
            command_input: String::new(),
            chat_history: Vec::new(),
            command_executor: CommandExecutor::new(),
            auto_scroll: true,
            search_results: Vec::new(),
            last_command: String::new(),
            show_process_window: false,
            process_text: String::new(),
            process_analysis: String::new(),
            selected_text: String::new(),
        }
    }
}

impl VibeRustCoderApp {
    /// Append one transcript entry, stamped with the current time.
    pub fn add_message(&mut self, role: MessageRole, content: String)
        ensures
            appended(
                old(self).chat_history.deep_view(),
                final(self).chat_history.deep_view(),
                role,
                content@,
            ),
            final(self).project == old(self).project,
            final(self).project_path == old(self).project_path,
            final(self).command_input == old(self).command_input,
            final(self).command_executor == old(self).command_executor,
            final(self).auto_scroll == old(self).auto_scroll,
            final(self).search_results == old(self).search_results,
            final(self).last_command == old(self).last_command,
            final(self).show_process_window == old(self).show_process_window,
            final(self).process_text == old(self).process_text,
            final(self).process_analysis == old(self).process_analysis,
            final(self).selected_text == old(self).selected_text,
    {
        let timestamp = now_hms();
        let ghost prev = self.chat_history.deep_view();
        self.chat_history.push(ChatMessage { role, content, timestamp });
        proof {
            assert(self.chat_history.deep_view().subrange(0, prev.len() as int) =~= prev);
        }
    }

    /// Record the user's input, parse it, and decide the one operation it
    /// takes; a parse error is recorded in the transcript instead.
    pub fn execute_command(&mut self, command_text: &str) -> (r: Option<ExecPlan>)
        ensures
            final(self).last_command@ == command_text@,
            ({
                let h0 = old(self).chat_history.deep_view();
                let h1 = final(self).chat_history.deep_view();
                match parse_spec(command_text@) {
                    Ok(c) => r matches Some(plan) && plan@ == plan_spec(c) && appended(
                        h0,
                        h1,
                        MessageRole::User,
                        command_text@,
                    ),
                    Err(e) => r is None && h1.len() == h0.len() + 2 && h1.subrange(
                        0,
                        h0.len() as int,
                    ) == h0 && h1[h0.len() as int].role == MessageRole::User
                        && h1[h0.len() as int].content == command_text@ && h1.last().role
                        == MessageRole::Error && h1.last().content == "Parse error: "@
                        + e.message_spec(),
                }
            }),
            final(self).project == old(self).project,
            final(self).project_path == old(self).project_path,
            final(self).command_input == old(self).command_input,
            final(self).command_executor == old(self).command_executor,
            final(self).auto_scroll == old(self).auto_scroll,
            final(self).search_results == old(self).search_results,
            final(self).show_process_window == old(self).show_process_window,
            final(self).process_text == old(self).process_text,
            final(self).process_analysis == old(self).process_analysis,
            final(self).selected_text == old(self).selected_text,
    {
        let ghost h0 = self.chat_history.deep_view();
        self.add_message(MessageRole::User, command_text.to_owned());
        self.last_command = command_text.to_owned();
        let ghost ha = self.chat_history.deep_view();
        match Command::parse(command_text) {
            Ok(command) => Some(self.command_executor.execute(command)),
            Err(e) => {
                let mut m = "Parse error: ".to_owned();
                let detail = e.message();
                m.append(detail.as_str());
                proof {
                    assert(m@ =~= "Parse error: "@ + e@.message_spec());
                }
                self.add_message(MessageRole::Error, m);
                proof {
                    let h1 = self.chat_history.deep_view();
                    assert(h1.subrange(0, h0.len() as int) =~= h0);
                    assert(h1[h0.len() as int] == ha.last());
                }
                None
            },
        }
    }

    /// Record the outcome of a performed plan: a result message, an error
    /// message, and for a search the clickable results.
    pub fn record_result(&mut self, was_search: bool, result: Result<String, String>)
        ensures
            ({
                let h0 = old(self).chat_history.deep_view();
                let h1 = final(self).chat_history.deep_view();
                match result {
                    Ok(output) => appended(h0, h1, MessageRole::Assistant, output@)
                        && final(self).search_results.deep_view() == (if was_search {
                        parse_results_spec(output@)
                    } else {
                        old(self).search_results.deep_view()
                    }),
                    Err(m) => appended(h0, h1, MessageRole::Error, "Error: "@ + m@)
                        && final(self).search_results == old(self).search_results,
                }
            }),
            final(self).project == old(self).project,
            final(self).project_path == old(self).project_path,
            final(self).command_input == old(self).command_input,
            final(self).command_executor == old(self).command_executor,
            final(self).auto_scroll == old(self).auto_scroll,
            final(self).last_command == old(self).last_command,
            final(self).show_process_window == old(self).show_process_window,
            final(self).process_text == old(self).process_text,
            final(self).process_analysis == old(self).process_analysis,
            final(self).selected_text == old(self).selected_text,
    {
        match result {
            Ok(output) => {
                if was_search {
                    self.parse_search_results(output.as_str());
                }
                self.add_message(MessageRole::Assistant, output);
            },
            Err(m) => {
                let mut t = "Error: ".to_owned();
                t.append(m.as_str());
                proof {
                    assert(t@ =~= "Error: "@ + m@);
                }
                self.add_message(MessageRole::Error, t);
            },
        }
    }

    /// Parse a search report back into clickable results, replacing the
    /// previous ones wholesale.
    pub fn parse_search_results(&mut self, output: &str)
        ensures
            final(self).search_results.deep_view() == parse_results_spec(output@),
            final(self).project == old(self).project,
            final(self).project_path == old(self).project_path,
            final(self).command_input == old(self).command_input,
            final(self).chat_history == old(self).chat_history,
            final(self).command_executor == old(self).command_executor,
            final(self).auto_scroll == old(self).auto_scroll,
            final(self).last_command == old(self).last_command,
            final(self).show_process_window == old(self).show_process_window,
            final(self).process_text == old(self).process_text,
            final(self).process_analysis == old(self).process_analysis,
            final(self).selected_text == old(self).selected_text,
    {
        let ls = split_lines(output);
        let ghost lsv = lines_spec(output@);
        let mut acc: Vec<SearchResult> = Vec::new();
        let n = ls.len();
        let mut i: usize = 0;
        proof {
            assert(lsv.subrange(0, 0) =~= Seq::<Seq<char>>::empty());
            assert(acc.deep_view() =~= results_of_lines(lsv.subrange(0, 0)));
        }
        while i < n
            invariant
                0 <= i <= n,
                n == ls@.len(),
                lsv == ls.deep_view(),
                lsv.len() == n,
                acc.deep_view() == results_of_lines(lsv.subrange(0, i as int)),
            decreases n - i,
        {
            proof {
                assert(ls@[i as int]@ == lsv[i as int]);
                assert(lsv.subrange(0, i + 1).drop_last() =~= lsv.subrange(0, i as int));
                assert(lsv.subrange(0, i + 1).last() == lsv[i as int]);
            }
            let line = &ls[i];
            let lstr = line.as_str();
            let ln = lstr.unicode_len();
            let ghost lv = lstr@;
            let ghost prev = acc.deep_view();
            if starts_with_text(lstr, "File: ") {
                proof {
                    reveal_strlit("File: ");
                }
                let f = lstr.substring_char(6, ln).to_owned();
                let content = f.clone();
                acc.push(SearchResult { file_path: f, line_number: None, content });
                proof {
                    let built = parse_result_line(lv);
                    assert(built matches Option::Some(r) && acc.deep_view() =~= prev.push(r));
                    assert(acc.deep_view() =~= results_of_lines(lsv.subrange(0, i + 1)));
                }
            } else {
                let has_colon = match find_first(lstr, ':') {
                    Some(_) => true,
                    None => false,
                };
                let mut pushed = false;
                if has_colon {
                    match find_text(lstr, " - ") {
                        Some(d) => {
                            proof {
                                lemma_find_sub_props(lv, " - "@);
                                reveal_strlit(" - ");
                            }
                            let fl = lstr.substring_char(0, d);
                            let ghost flv = fl@;
                            match find_last(fl, ':') {
                                Some(c) => {
                                    proof {
                                        lemma_rfind_char_props(flv, ':');
                                    }
                                    let fln = fl.unicode_len();
                                    let file = trim(fl.substring_char(0, c)).to_owned();
                                    let numtext = trim(fl.substring_char(c + 1, fln));
                                    let num = parse_usize(numtext);
                                    let content = lstr.substring_char(d + 3, ln).to_owned();
                                    acc.push(
                                        SearchResult {
                                            file_path: file,
                                            line_number: num,
                                            content,
                                        },
                                    );
                                    pushed = true;
                                    proof {
                                        let built = parse_result_line(lv);
                                        assert(built matches Option::Some(r) && acc.deep_view()
                                            =~= prev.push(r));
                                    }
                                },
                                None => {},
                            }
                        },
                        None => {},
                    }
                }
                proof {
                    if !pushed {
                        assert(parse_result_line(lv) is None);
                        assert(acc.deep_view() =~= prev);
                    }
                    assert(acc.deep_view() =~= results_of_lines(lsv.subrange(0, i + 1)));
                }
            }
            i = i + 1;
        }
        proof {
            assert(lsv.subrange(0, n as int) =~= lsv);
        }
        self.search_results = acc;
    }

    /// Load the workspace at the session's project path, and record the
    /// outcome in the transcript.
    pub fn load_project(&mut self, root_exists: bool, entries: &Vec<WalkEntry>)
        ensures
            ({
                let h0 = old(self).chat_history.deep_view();
                let h1 = final(self).chat_history.deep_view();
                if root_exists {
                    &&& final(self).project matches Some(p) && p.root_path@
                        == old(self).project_path@ && p.files_view() == scan_spec(
                        old(self).project_path@,
                        entries.deep_view(),
                    )
                    &&& appended(
                        h0,
                        h1,
                        MessageRole::System,
                        "Project loaded from: "@ + old(self).project_path@,
                    )
                } else {
                    &&& final(self).project == old(self).project
                    &&& appended(
                        h0,
                        h1,
                        MessageRole::Error,
                        "Failed to load project: "@ + (ProjectErrorV::PathDoesNotExist {
                            path: old(self).project_path@,
                        }).message_spec(),
                    )
                }
            }),
            final(self).project_path == old(self).project_path,
            final(self).command_input == old(self).command_input,
            final(self).command_executor == old(self).command_executor,
            final(self).auto_scroll == old(self).auto_scroll,
            final(self).search_results == old(self).search_results,
            final(self).last_command == old(self).last_command,
            final(self).show_process_window == old(self).show_process_window,
            final(self).process_text == old(self).process_text,
            final(self).process_analysis == old(self).process_analysis,
            final(self).selected_text == old(self).selected_text,
    {
        let path = self.project_path.clone();
        match Project::load(path, root_exists, entries) {
            Ok(p) => {
                self.project = Some(p);
                let mut m = "Project loaded from: ".to_owned();
                m.append(self.project_path.as_str());
                proof {
                    assert(m@ =~= "Project loaded from: "@ + self.project_path@);
                }
                self.add_message(MessageRole::System, m);
            },
            Err(e) => {
                let mut m = "Failed to load project: ".to_owned();
                let detail = e.message();
                m.append(detail.as_str());
                proof {
                    assert(m@ =~= "Failed to load project: "@ + e@.message_spec());
                }
                self.add_message(MessageRole::Error, m);
            },
        }
    }

    /// Analyze the processing window's text: sizes, code detection, and
    /// distinct words.
    #[verifier::rlimit(100)]
    pub fn analyze_text(&mut self)
        ensures
            final(self).process_analysis@ == analysis_spec(old(self).process_text@),
            final(self).project == old(self).project,
            final(self).project_path == old(self).project_path,
            final(self).command_input == old(self).command_input,
            final(self).chat_history == old(self).chat_history,
            final(self).command_executor == old(self).command_executor,
            final(self).auto_scroll == old(self).auto_scroll,
            final(self).search_results == old(self).search_results,
            final(self).last_command == old(self).last_command,
            final(self).show_process_window == old(self).show_process_window,
            final(self).process_text == old(self).process_text,
            final(self).selected_text == old(self).selected_text,
    {
        let text = self.process_text.clone();
        let t = text.as_str();
        let ghost tv = t@;
        let mut analysis = "📊 Text Analysis\n\n".to_owned();
        analysis.append("Length: ");
        let char_len = fmt_usize(t.unicode_len());
        analysis.append(char_len.as_str());
        analysis.append(" characters\n");
        analysis.append("Lines: ");
        let line_vec = split_lines(t);
        let line_count = fmt_usize(line_vec.len());
        analysis.append(line_count.as_str());
        analysis.append("\n");
        analysis.append("Words: ");
        let words = split_whitespace_vec(t);
        let word_count = fmt_usize(words.len());
        analysis.append(word_count.as_str());
        analysis.append("\n\n");
        proof {
            assert(analysis@ =~= "📊 Text Analysis\n\n"@ + "Length: "@ + dec_str(
                tv.len() as int,
            ) + " characters\n"@ + "Lines: "@ + dec_str(lines_spec(tv).len() as int) + "\n"@
                + "Words: "@ + dec_str(split_ws(tv).len() as int) + "\n\n"@);
        }
        let ghost head = analysis@;
        let has_fn = contains_text(t, "fn ");
        let has_struct = contains_text(t, "struct ");
        let has_impl = contains_text(t, "impl ");
        if has_fn || has_struct || has_impl {
            analysis.append("🦀 Detected: Rust code\n\n");
            let fn_count = count_text(t, "fn ");
            let struct_count = count_text(t, "struct ");
            let impl_count = count_text(t, "impl ");
            proof {
                reveal_strlit("fn ");
                reveal_strlit("struct ");
                reveal_strlit("impl ");
                lemma_find_sub_props(tv, "fn "@);
                lemma_find_sub_props(tv, "struct "@);
                lemma_find_sub_props(tv, "impl "@);
                lemma_count_occ_contains(tv, "fn "@);
                lemma_count_occ_contains(tv, "struct "@);
                lemma_count_occ_contains(tv, "impl "@);
            }
            if fn_count > 0 {
                analysis.append("Functions: ");
                let cnt = fmt_usize(fn_count);
                analysis.append(cnt.as_str());
                analysis.append("\n");
            }
            if struct_count > 0 {
                analysis.append("Structs: ");
                let cnt = fmt_usize(struct_count);
                analysis.append(cnt.as_str());
                analysis.append("\n");
            }
            if impl_count > 0 {
                analysis.append("Implementations: ");
                let cnt = fmt_usize(impl_count);
                analysis.append(cnt.as_str());
                analysis.append("\n");
            }
            analysis.append("\n");
            proof {
                assert(analysis@ =~= head + rust_counts_spec(tv));
            }
        } else {
            proof {
                assert(rust_counts_spec(tv) =~= Seq::<char>::empty());
                assert(analysis@ =~= head + rust_counts_spec(tv));
            }
        }
        analysis.append("Unique words: ");
        let uniq = count_distinct(&words);
        let uniq_text = fmt_usize(uniq);
        analysis.append(uniq_text.as_str());
        analysis.append("\n");
        proof {
            assert(analysis@ =~= analysis_spec(tv));
        }
        self.process_analysis = analysis;
    }

    /// Summarize the processing window's text: short texts whole, longer
    /// ones by their first three and last two lines.
    pub fn summarize_text(&mut self)
        ensures
            final(self).process_analysis@ == summary_spec(old(self).process_text@),
            final(self).project == old(self).project,
            final(self).project_path == old(self).project_path,
            final(self).command_input == old(self).command_input,
            final(self).chat_history == old(self).chat_history,
            final(self).command_executor == old(self).command_executor,
            final(self).auto_scroll == old(self).auto_scroll,
            final(self).search_results == old(self).search_results,
            final(self).last_command == old(self).last_command,
            final(self).show_process_window == old(self).show_process_window,
            final(self).process_text == old(self).process_text,
            final(self).selected_text == old(self).selected_text,
    {
        let text = self.process_text.clone();
        let t = text.as_str();
        let ghost tv = t@;
        let ls = split_lines(t);
        let ghost lsv = lines_spec(tv);
        let n = ls.len();
        let mut summary = "📝 Summary\n\n".to_owned();
        let ghost head = summary@;
        if n <= 5 {
            summary.append(t);
            proof {
                assert(summary@ =~= summary_spec(tv));
            }
        } else {
            let mut i: usize = 0;
            proof {
                assert(lsv.subrange(0, 3).subrange(0, 0) =~= Seq::<Seq<char>>::empty());
                assert(summary@ =~= head + join_nl(lsv.subrange(0, 3).subrange(0, 0)));
            }
            while i < 3
                invariant
                    0 <= i <= 3,
                    n == ls@.len(),
                    n > 5,
                    lsv == ls.deep_view(),
                    lsv.len() == n,
                    head == "📝 Summary\n\n"@,
                    summary@ == head + join_nl(lsv.subrange(0, 3).subrange(0, i as int)),
                decreases 3 - i,
            {
                proof {
                    assert(ls@[i as int]@ == lsv[i as int]);
                    let p = lsv.subrange(0, 3);
                    assert(p.subrange(0, i + 1).drop_last() =~= p.subrange(0, i as int));
                    assert(p.subrange(0, i + 1).last() == lsv[i as int]);
                }
                summary.append(ls[i].as_str());
                push_char(&mut summary, '\n');
                proof {
                    reveal_strlit("\n");
                    assert("\n"@ =~= seq!['\n']);
                    assert(summary@ =~= head + (join_nl(
                        lsv.subrange(0, 3).subrange(0, i as int),
                    ) + lsv[i as int] + "\n"@));
                    assert(summary@ =~= head + join_nl(lsv.subrange(0, 3).subrange(0, i + 1)));
                }
                i = i + 1;
            }
            proof {
                assert(lsv.subrange(0, 3).subrange(0, 3) =~= lsv.subrange(0, 3));
            }
            summary.append("\n... (");
            let omitted = fmt_usize(n - 5);
            summary.append(omitted.as_str());
            summary.append(" lines omitted) ...\n\n");
            let ghost mid = summary@;
            let ghost tail = lsv.subrange(n - 2, n as int);
            let mut j: usize = n - 2;
            proof {
                assert(tail.subrange(0, 0) =~= Seq::<Seq<char>>::empty());
                assert(summary@ =~= mid + join_nl(tail.subrange(0, 0)));
            }
            while j < n
                invariant
                    n - 2 <= j <= n,
                    n == ls@.len(),
                    n > 5,
                    lsv == ls.deep_view(),
                    lsv.len() == n,
                    tail == lsv.subrange(n - 2, n as int),
                    summary@ == mid + join_nl(tail.subrange(0, j - (n - 2))),
                decreases n - j,
            {
                proof {
                    assert(ls@[j as int]@ == lsv[j as int]);
                    assert(tail.subrange(0, j - (n - 2) + 1).drop_last() =~= tail.subrange(
                        0,
                        j - (n - 2),
                    ));
                    assert(tail.subrange(0, j - (n - 2) + 1).last() == tail[j - (n - 2)]);
                    assert(tail[j - (n - 2)] == lsv[j as int]);
                }
                summary.append(ls[j].as_str());
                push_char(&mut summary, '\n');
                proof {
                    reveal_strlit("\n");
                    assert("\n"@ =~= seq!['\n']);
                    assert(summary@ =~= mid + (join_nl(tail.subrange(0, j - (n - 2))) + lsv[j as int]
                        + "\n"@));
                    assert(summary@ =~= mid + join_nl(tail.subrange(0, j - (n - 2) + 1)));
                }
                j = j + 1;
            }
            proof {
                assert(tail.subrange(0, 2) =~= tail);
                assert(summary@ =~= summary_spec(tv));
            }
        }
        self.process_analysis = summary;
    }

    /// Turn the processing window's text into a patch skeleton: a header
    /// and each non-blank line, space-prefixed.
    pub fn create_patch(&mut self)
        ensures
            final(self).process_analysis@ == patch_spec(old(self).process_text@),
            final(self).project == old(self).project,
            final(self).project_path == old(self).project_path,
            final(self).command_input == old(self).command_input,
            final(self).chat_history == old(self).chat_history,
            final(self).command_executor == old(self).command_executor,
            final(self).auto_scroll == old(self).auto_scroll,
            final(self).search_results == old(self).search_results,
            final(self).last_command == old(self).last_command,
            final(self).show_process_window == old(self).show_process_window,
            final(self).process_text == old(self).process_text,
            final(self).selected_text == old(self).selected_text,
    {
        let text = self.process_text.clone();
        let t = text.as_str();
        let ghost tv = t@;
        let ls = split_lines(t);
        let ghost lsv = lines_spec(tv);
        let n = ls.len();
        let mut patch = "--- Original\n+++ Modified\n@@ -1,1 +1,1 @@\n".to_owned();
        let ghost head = patch@;
        let mut i: usize = 0;
        proof {
            assert(lsv.subrange(0, 0) =~= Seq::<Seq<char>>::empty());
            assert(patch@ =~= head + patch_body(lsv.subrange(0, 0)));
        }
        while i < n
            invariant
                0 <= i <= n,
                n == ls@.len(),
                lsv == ls.deep_view(),
                lsv.len() == n,
                head == "--- Original\n+++ Modified\n@@ -1,1 +1,1 @@\n"@,
                patch@ == head + patch_body(lsv.subrange(0, i as int)),
            decreases n - i,
        {
            proof {
                assert(ls@[i as int]@ == lsv[i as int]);
                assert(lsv.subrange(0, i + 1).drop_last() =~= lsv.subrange(0, i as int));
                assert(lsv.subrange(0, i + 1).last() == lsv[i as int]);
            }
            let line = &ls[i];
            let trimmed = trim(line.as_str());
            if trimmed.unicode_len() > 0 {
                patch.append(" ");
                patch.append(line.as_str());
                push_char(&mut patch, '\n');
                proof {
                    reveal_strlit("\n");
                    assert("\n"@ =~= seq!['\n']);
                    assert(patch@ =~= head + (patch_body(lsv.subrange(0, i as int)) + (" "@
                        + lsv[i as int] + "\n"@)));
                }
            }
            proof {
                assert(patch@ =~= head + patch_body(lsv.subrange(0, i + 1)));
            }
            i = i + 1;
        }
        proof {
            assert(lsv.subrange(0, n as int) =~= lsv);
        }
        self.process_analysis = patch;
    }

    /// Open the processing window on the given text, clearing the
    /// previous analysis.
    pub fn open_process_window(&mut self, text: String)
        ensures
            final(self).process_text@ == text@,
            final(self).process_analysis@ == Seq::<char>::empty(),
            final(self).show_process_window == true,
            final(self).project == old(self).project,
            final(self).project_path == old(self).project_path,
            final(self).command_input == old(self).command_input,
            final(self).chat_history == old(self).chat_history,
            final(self).command_executor == old(self).command_executor,
            final(self).auto_scroll == old(self).auto_scroll,
            final(self).search_results == old(self).search_results,
            final(self).last_command == old(self).last_command,
            final(self).selected_text == old(self).selected_text,
    {
        self.process_text = text;
        self.process_analysis = String::new();
        self.show_process_window = true;
    }
}

} // verus!
