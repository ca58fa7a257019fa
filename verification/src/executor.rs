//! The command executor: an exhaustive dispatch from typed commands to
//! workspace operations, toolchain invocations and formatted results.
//! Toolchain processes and file reads run outside this library; the
//! functions here decide the invocations and format every result.

use vstd::prelude::*;
use vstd::string::*;
use crate::command::{Command, CommandV};
use crate::parser::{
    extract_spec, fn_listing, parse_of, ParserError, ParserErrorV, RustParser,
};
use crate::project::{search_spec, Project};
use crate::text::dec_str;
use crate::text::fmt_usize;

verus! {

/// The toolchain verb a command maps to.
#[derive(Debug, Clone, PartialEq, Eq, Structural)]
pub enum ToolKind {
    Build,
    Run,
    Test,
    Profile,
}

/// Why the executor refused a command.
#[derive(Debug, Clone)]
pub enum ExecError {
    NoProject,
}

impl ExecError {
    /// The diagnostic text reported to the caller.
    pub fn message(&self) -> (r: String)
        ensures
            r@ == "No project loaded"@,
    {
        "No project loaded".to_owned()
    }
}

/// What performing one command takes: the one workspace or toolchain
/// operation the caller must carry out, with everything already decided.
pub enum ExecPlan {
    DoSearch { query: String },
    DoAddInto { file: String, code: String },
    DoToolchain { kind: ToolKind, args: Vec<String> },
    DoListFiles,
    DoShowFile { file: String },
    DoShowFunction { file: String, function: String },
    DoListFunctions { file: String },
    DoHelp,
}

/// The mathematical form of an execution plan.
pub enum ExecPlanV {
    DoSearch { query: Seq<char> },
    DoAddInto { file: Seq<char>, code: Seq<char> },
    DoToolchain { kind: ToolKind, args: Seq<Seq<char>> },
    DoListFiles,
    DoShowFile { file: Seq<char> },
    DoShowFunction { file: Seq<char>, function: Seq<char> },
    DoListFunctions { file: Seq<char> },
    DoHelp,
}

impl View for ExecPlan {
    type V = ExecPlanV;

    open spec fn view(&self) -> ExecPlanV {
        match self {
            ExecPlan::DoSearch { query } => ExecPlanV::DoSearch { query: query@ },
            ExecPlan::DoAddInto { file, code } => ExecPlanV::DoAddInto {
                file: file@,
                code: code@,
            },
            ExecPlan::DoToolchain { kind, args } => ExecPlanV::DoToolchain {
                kind: *kind,
                args: args.deep_view(),
            },
            ExecPlan::DoListFiles => ExecPlanV::DoListFiles,
            ExecPlan::DoShowFile { file } => ExecPlanV::DoShowFile { file: file@ },
            ExecPlan::DoShowFunction { file, function } => ExecPlanV::DoShowFunction {
                file: file@,
                function: function@,
            },
            ExecPlan::DoListFunctions { file } => ExecPlanV::DoListFunctions { file: file@ },
            ExecPlan::DoHelp => ExecPlanV::DoHelp,
        }
    }
}

/// The toolchain invocation each toolchain command decides: the argument
/// list handed to the external executable.
pub open spec fn toolchain_args_spec(c: CommandV) -> Seq<Seq<char>> {
    match c {
        CommandV::Build => seq!["build"@],
        CommandV::Run { args } => if args.len() == 0 {
            seq!["run"@]
        } else {
            seq!["run"@, "--"@] + args
        },
        CommandV::Test { test_name } => match test_name {
            Option::Some(name) => seq!["test"@, name],
            Option::None => seq!["test"@],
        },
        CommandV::Profile => seq!["build"@, "--release"@],
        _ => Seq::empty(),
    }
}

/// What each command requires of its caller.
pub open spec fn plan_spec(c: CommandV) -> ExecPlanV {
    match c {
        CommandV::Search { query } => ExecPlanV::DoSearch { query },
        CommandV::AddInto { file, code } => ExecPlanV::DoAddInto { file, code },
        CommandV::Build => ExecPlanV::DoToolchain {
            kind: ToolKind::Build,
            args: toolchain_args_spec(c),
        },
        CommandV::Run { args } => ExecPlanV::DoToolchain {
            kind: ToolKind::Run,
            args: toolchain_args_spec(c),
        },
        CommandV::Test { test_name } => ExecPlanV::DoToolchain {
            kind: ToolKind::Test,
            args: toolchain_args_spec(c),
        },
        CommandV::Profile => ExecPlanV::DoToolchain {
            kind: ToolKind::Profile,
            args: toolchain_args_spec(c),
        },
        CommandV::ListFiles => ExecPlanV::DoListFiles,
        CommandV::ShowFile { file } => ExecPlanV::DoShowFile { file },
        CommandV::ShowFunction { file, function } => ExecPlanV::DoShowFunction { file, function },
        CommandV::ListFunctions { file } => ExecPlanV::DoListFunctions { file },
        CommandV::Help => ExecPlanV::DoHelp,
    }
}

/// A numbered listing: `1. ` to `n. `, one item per line.
pub open spec fn numbered_list(items: Seq<Seq<char>>) -> Seq<char>
    decreases items.len(),
{
    if items.len() == 0 {
        Seq::empty()
    } else {
        numbered_list(items.drop_last()) + dec_str(items.len() as int) + ". "@ + items.last()
            + "\n"@
    }
}

/// The items numbered `1. ` to `n. `, one per line.
pub fn format_numbered(items: &Vec<String>) -> (r: String)
    ensures
        r@ == numbered_list(items.deep_view()),
{
    let ghost dv = items.deep_view();
    let mut out = String::new();
    let n = items.len();
    let mut i: usize = 0;
    proof {
        assert(dv.subrange(0, 0) =~= Seq::<Seq<char>>::empty());
        assert(out@ =~= numbered_list(dv.subrange(0, 0)));
    }
    while i < n
        invariant
            0 <= i <= n,
            n == items@.len(),
            dv == items.deep_view(),
            dv.len() == n,
            out@ == numbered_list(dv.subrange(0, i as int)),
        decreases n - i,
    {
        proof {
            assert(items@[i as int]@ == dv[i as int]);
            assert(dv.subrange(0, i + 1).drop_last() =~= dv.subrange(0, i as int));
            assert(dv.subrange(0, i + 1).last() == dv[i as int]);
            assert(dv.subrange(0, i + 1).len() == i + 1);
        }
        let num = fmt_usize(i + 1);
        out.append(num.as_str());
        out.append(". ");
        out.append(items[i].as_str());
        crate::text::push_char(&mut out, '\n');
        proof {
            reveal_strlit("\n");
            assert("\n"@ =~= seq!['\n']);
            assert(out@ =~= numbered_list(dv.subrange(0, i as int)) + dec_str(i + 1) + ". "@
                + dv[i as int] + "\n"@);
        }
        i = i + 1;
    }
    proof {
        assert(dv.subrange(0, n as int) =~= dv);
    }
    out
}

/// The text reported for a search: how many results, then each, numbered.
pub open spec fn search_output_spec(results: Seq<Seq<char>>, query: Seq<char>) -> Seq<char> {
    if results.len() == 0 {
        "No results found for '"@ + query + "'"@
    } else {
        "Found "@ + dec_str(results.len() as int) + " result(s) for '"@ + query + "':\n\n"@
            + numbered_list(results)
    }
}

/// The text reported for a toolchain run: a label derived from the verb
/// (and, for a build, from the exit status), then both output streams.
pub open spec fn toolchain_report_spec(
    kind: ToolKind,
    success: bool,
    stdout: Seq<char>,
    stderr: Seq<char>,
) -> Seq<char> {
    match kind {
        ToolKind::Build => (if success {
            "Build successful!\n\n"@
        } else {
            "Build failed!\n\n"@
        }) + stdout + stderr,
        ToolKind::Run => "Run output:\n\n"@ + stdout + stderr,
        ToolKind::Test => "Test output:\n\n"@ + stdout + stderr,
        ToolKind::Profile => "Profile build output:\n\n"@ + stdout + stderr,
    }
}

/// The help text naming every command, one line each, with examples.
pub open spec fn help_text_spec() -> Seq<char> {
    "Available Commands:

search <query>              - Search for files, functions, or variables
add into <file>             - Add code into a file (multiline)
build                       - Build the project with cargo build
run [args]                  - Run the project with cargo run
test [name]                 - Run tests with cargo test
profile                     - Build with --release for profiling
list files                  - List all Rust files in the project
list functions <file>       - List all functions in a file
show <file>                 - Show file contents
show <file>::<function>     - Show specific function
help                        - Show this help message

Examples:
  search npc.rs
  add into src/npc.rs
  build
  run --verbose
  test test_npc
  list files
  show src/main.rs
  show src/npc.rs::spawn_npc
"@
}

/// Dispatches typed commands and formats every result.
pub struct CommandExecutor {
    parser: RustParser,
}

impl CommandExecutor {
    pub fn new() -> (r: CommandExecutor) {
        CommandExecutor { parser: RustParser::new() }
    }

    /// Decide what performing the command takes. Exhaustive: every
    /// command variant maps to exactly one plan.
    pub fn execute(&self, command: Command) -> (plan: ExecPlan)
        ensures
            plan@ == plan_spec(command@),
    {
        match command {
            Command::Search { query } => ExecPlan::DoSearch { query },
            Command::AddInto { file, code } => ExecPlan::DoAddInto { file, code },
            Command::Build => {
                let mut args: Vec<String> = Vec::new();
                args.push("build".to_owned());
                proof {
                    assert(args.deep_view() =~= seq!["build"@]);
                }
                ExecPlan::DoToolchain { kind: ToolKind::Build, args }
            },
            Command::Run { args } => {
                let mut full: Vec<String> = Vec::new();
                full.push("run".to_owned());
                if args.len() > 0 {
                    full.push("--".to_owned());
                    let ghost base = full.deep_view();
                    let n = args.len();
                    let mut i: usize = 0;
                    proof {
                        assert(base =~= seq!["run"@, "--"@]);
                        assert(args.deep_view().subrange(0, 0) =~= Seq::<Seq<char>>::empty());
                        assert(full.deep_view() =~= base + args.deep_view().subrange(0, 0));
                    }
                    while i < n
                        invariant
                            0 <= i <= n,
                            n == args@.len(),
                            args.deep_view().len() == n,
                            full.deep_view() == seq!["run"@, "--"@] + args.deep_view().subrange(
                                0,
                                i as int,
                            ),
                        decreases n - i,
                    {
                        let ghost prev = full.deep_view();
                        proof {
                            assert(args@[i as int]@ == args.deep_view()[i as int]);
                        }
                        full.push(args[i].clone());
                        proof {
                            assert(full.deep_view() =~= prev.push(args.deep_view()[i as int]));
                            assert(full.deep_view() =~= seq!["run"@, "--"@]
                                + args.deep_view().subrange(0, i + 1));
                        }
                        i = i + 1;
                    }
                    proof {
                        assert(args.deep_view().subrange(0, n as int) =~= args.deep_view());
                    }
                } else {
                    proof {
                        assert(full.deep_view() =~= seq!["run"@]);
                    }
                }
                ExecPlan::DoToolchain { kind: ToolKind::Run, args: full }
            },
            Command::Test { test_name } => {
                let mut args: Vec<String> = Vec::new();
                args.push("test".to_owned());
                match test_name {
                    Some(name) => {
                        let ghost nv = name@;
                        args.push(name);
                        proof {
                            assert(args.deep_view() =~= seq!["test"@, nv]);
                        }
                    },
                    None => {
                        proof {
                            assert(args.deep_view() =~= seq!["test"@]);
                        }
                    },
                }
                ExecPlan::DoToolchain { kind: ToolKind::Test, args }
            },
            Command::Profile => {
                let mut args: Vec<String> = Vec::new();
                args.push("build".to_owned());
                args.push("--release".to_owned());
                proof {
                    assert(args.deep_view() =~= seq!["build"@, "--release"@]);
                }
                ExecPlan::DoToolchain { kind: ToolKind::Profile, args }
            },
            Command::ListFiles => ExecPlan::DoListFiles,
            Command::ShowFile { file } => ExecPlan::DoShowFile { file },
            Command::ShowFunction { file, function } => ExecPlan::DoShowFunction {
                file,
                function,
            },
            Command::ListFunctions { file } => ExecPlan::DoListFunctions { file },
            Command::Help => ExecPlan::DoHelp,
        }
    }

    /// Search the loaded workspace and format the results. `contents`
    /// holds each indexed file's text at call time, in index order.
    pub fn search(&self, project: &Option<Project>, query: &str, contents: &Vec<Option<String>>)
        -> (r: Result<String, ExecError>)
        requires
            project matches Some(p) ==> p.wf() && contents@.len() == p.files_view().len(),
        ensures
            match project {
                Option::Some(p) => r matches Ok(out) && out@ == search_output_spec(
                    search_spec(p.root_path@, p.files_view(), contents.deep_view(), query@),
                    query@,
                ),
                Option::None => r matches Err(e) && e matches ExecError::NoProject,
            },
    {
        let p = match project {
            Some(p) => p,
            None => {
                return Err(ExecError::NoProject);
            },
        };
        let results = match p.search(query, contents) {
            Ok(v) => v,
            Err(_) => {
                proof {
                    assert(false);
                }
                Vec::new()
            },
        };
        if results.len() == 0 {
            let mut out = "No results found for '".to_owned();
            out.append(query);
            out.append("'");
            proof {
                assert(out@ =~= "No results found for '"@ + query@ + "'"@);
            }
            Ok(out)
        } else {
            let count = fmt_usize(results.len());
            let mut out = "Found ".to_owned();
            out.append(count.as_str());
            out.append(" result(s) for '");
            out.append(query);
            out.append("':\n\n");
            let listing = format_numbered(&results);
            out.append(listing.as_str());
            proof {
                assert(out@ =~= "Found "@ + dec_str(results.deep_view().len() as int)
                    + " result(s) for '"@ + query@ + "':\n\n"@ + numbered_list(
                    results.deep_view(),
                ));
            }
            Ok(out)
        }
    }

    /// The message reported after code was merged into a file.
    pub fn add_into(&self, file: &str) -> (r: String)
        ensures
            r@ == "Code added to "@ + file@,
    {
        let mut out = "Code added to ".to_owned();
        out.append(file);
        out
    }

    /// Format the report of a toolchain run from its exit status and its
    /// captured output streams.
    pub fn toolchain_report(&self, kind: &ToolKind, success: bool, stdout: &str, stderr: &str)
        -> (r: String)
        ensures
            r@ == toolchain_report_spec(*kind, success, stdout@, stderr@),
    {
        let mut out = match kind {
            ToolKind::Build => if success {
                "Build successful!\n\n".to_owned()
            } else {
                "Build failed!\n\n".to_owned()
            },
            ToolKind::Run => "Run output:\n\n".to_owned(),
            ToolKind::Test => "Test output:\n\n".to_owned(),
            ToolKind::Profile => "Profile build output:\n\n".to_owned(),
        };
        out.append(stdout);
        out.append(stderr);
        proof {
            assert(out@ =~= toolchain_report_spec(*kind, success, stdout@, stderr@));
        }
        out
    }

    /// List the workspace's indexed files, numbered.
    pub fn list_files(&self, project: &Option<Project>) -> (r: Result<String, ExecError>)
        requires
            project matches Some(p) ==> p.wf(),
        ensures
            match project {
                Option::Some(p) => r matches Ok(out) && out@ == "Found "@ + dec_str(
                    p.files_view().len() as int,
                ) + " Rust file(s):\n\n"@ + numbered_list(
                    p.files_view().map_values(
                        |f: Seq<char>| crate::project::rel_of(p.root_path@, f),
                    ),
                ),
                Option::None => r matches Err(e) && e matches ExecError::NoProject,
            },
    {
        let p = match project {
            Some(p) => p,
            None => {
                return Err(ExecError::NoProject);
            },
        };
        let files = match p.list_rust_files() {
            Ok(v) => v,
            Err(_) => {
                proof {
                    assert(false);
                }
                Vec::new()
            },
        };
        let count = fmt_usize(files.len());
        let mut out = "Found ".to_owned();
        out.append(count.as_str());
        out.append(" Rust file(s):\n\n");
        let listing = format_numbered(&files);
        out.append(listing.as_str());
        proof {
            assert(files.deep_view().len() == p.files_view().len());
            assert(out@ =~= "Found "@ + dec_str(p.files_view().len() as int)
                + " Rust file(s):\n\n"@ + numbered_list(files.deep_view()));
        }
        Ok(out)
    }

    /// Format one file's contents for display.
    pub fn show_file(&self, file: &str, content: &str) -> (r: String)
        ensures
            r@ == "Content of "@ + file@ + ":\n\n"@ + content@,
    {
        let mut out = "Content of ".to_owned();
        out.append(file);
        out.append(":\n\n");
        out.append(content);
        proof {
            assert(out@ =~= "Content of "@ + file@ + ":\n\n"@ + content@);
        }
        out
    }

    /// Extract one function from a file's text and format it for display.
    pub fn show_function(&self, file: &str, function: &str, content: &str) -> (r: Result<
        String,
        ParserError,
    >)
        ensures
            match parse_of(content@) {
                Ok(m) => match extract_spec(m, function@) {
                    Option::Some(src) => r matches Ok(out) && out@ == "Function '"@ + function@
                        + "' in "@ + file@ + ":\n\n"@ + src,
                    Option::None => r matches Err(e) && e@ == (ParserErrorV::FunctionNotFound {
                        name: function@,
                    }),
                },
                Err(msg) => r matches Err(e) && e@ == (ParserErrorV::Grammar { message: msg }),
            },
    {
        let code = self.parser.extract_function(content, function)?;
        let mut out = "Function '".to_owned();
        out.append(function);
        out.append("' in ");
        out.append(file);
        out.append(":\n\n");
        out.append(code.as_str());
        proof {
            assert(out@ =~= "Function '"@ + function@ + "' in "@ + file@ + ":\n\n"@ + code@);
        }
        Ok(out)
    }

    /// List a file's functions, numbered, from its text.
    pub fn list_functions(&self, file: &str, content: &str) -> (r: Result<String, ParserError>)
        ensures
            match parse_of(content@) {
                Ok(m) => r matches Ok(out) && out@ == "Functions in "@ + file@ + ":\n\n"@
                    + numbered_list(fn_listing(m)),
                Err(msg) => r matches Err(e) && e@ == (ParserErrorV::Grammar { message: msg }),
            },
    {
        let functions = self.parser.list_functions(content)?;
        let mut out = "Functions in ".to_owned();
        out.append(file);
        out.append(":\n\n");
        let listing = format_numbered(&functions);
        out.append(listing.as_str());
        proof {
            assert(out@ =~= "Functions in "@ + file@ + ":\n\n"@ + numbered_list(
                functions.deep_view(),
            ));
        }
        Ok(out)
    }

    /// The help text naming every command.
    pub fn help(&self) -> (r: String)
        ensures
            r@ == help_text_spec(),
    {
        "Available Commands:

search <query>              - Search for files, functions, or variables
add into <file>             - Add code into a file (multiline)
build                       - Build the project with cargo build
run [args]                  - Run the project with cargo run
test [name]                 - Run tests with cargo test
profile                     - Build with --release for profiling
list files                  - List all Rust files in the project
list functions <file>       - List all functions in a file
show <file>                 - Show file contents
show <file>::<function>     - Show specific function
help                        - Show this help message

Examples:
  search npc.rs
  add into src/npc.rs
  build
  run --verbose
  test test_npc
  list files
  show src/main.rs
  show src/npc.rs::spawn_npc
".to_owned()
    }
}

} // verus!
