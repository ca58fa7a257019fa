//! Free-text command parsing: one input line (multi-line for insertion)
//! becomes exactly one typed command, or a parse error.

use vstd::prelude::*;
use vstd::string::*;
use crate::text::{
    eq_text, find_char, find_first, find_sub, find_text, fold_case, lemma_find_char_props,
    lemma_find_sub_props, lemma_trim_idempotent, lowercase, split_whitespace_vec, split_ws,
    starts_with_text, trim, trim_spec,
};

verus! {

/// A typed command, the result of parsing one input.
#[derive(Debug, Clone)]
pub enum Command {
    Search { query: String },
    AddInto { file: String, code: String },
    Build,
    Run { args: Vec<String> },
    Test { test_name: Option<String> },
    Profile,
    ListFiles,
    ShowFile { file: String },
    ShowFunction { file: String, function: String },
    ListFunctions { file: String },
    Help,
}

/// The mathematical form of a command, over character sequences.
pub enum CommandV {
    Search { query: Seq<char> },
    AddInto { file: Seq<char>, code: Seq<char> },
    Build,
    Run { args: Seq<Seq<char>> },
    Test { test_name: Option<Seq<char>> },
    Profile,
    ListFiles,
    ShowFile { file: Seq<char> },
    ShowFunction { file: Seq<char>, function: Seq<char> },
    ListFunctions { file: Seq<char> },
    Help,
}

impl View for Command {
    type V = CommandV;

    open spec fn view(&self) -> CommandV {
        match self {
            Command::Search { query } => CommandV::Search { query: query@ },
            Command::AddInto { file, code } => CommandV::AddInto { file: file@, code: code@ },
            Command::Build => CommandV::Build,
            Command::Run { args } => CommandV::Run { args: args.deep_view() },
            Command::Test { test_name } => CommandV::Test { test_name: test_name.deep_view() },
            Command::Profile => CommandV::Profile,
            Command::ListFiles => CommandV::ListFiles,
            Command::ShowFile { file } => CommandV::ShowFile { file: file@ },
            Command::ShowFunction { file, function } => CommandV::ShowFunction {
                file: file@,
                function: function@,
            },
            Command::ListFunctions { file } => CommandV::ListFunctions { file: file@ },
            Command::Help => CommandV::Help,
        }
    }
}

/// Why an input failed to parse.
#[derive(Debug, Clone)]
pub enum ParseError {
    MissingSearchQuery,
    AddUsage,
    ExpectedAddInto,
    MissingFileName,
    UnknownListCommand,
    UnknownCommand { verb: String },
}

/// The mathematical form of a parse error.
pub enum ParseErrorV {
    MissingSearchQuery,
    AddUsage,
    ExpectedAddInto,
    MissingFileName,
    UnknownListCommand,
    UnknownCommand { verb: Seq<char> },
}

impl View for ParseError {
    type V = ParseErrorV;

    open spec fn view(&self) -> ParseErrorV {
        match self {
            ParseError::MissingSearchQuery => ParseErrorV::MissingSearchQuery,
            ParseError::AddUsage => ParseErrorV::AddUsage,
            ParseError::ExpectedAddInto => ParseErrorV::ExpectedAddInto,
            ParseError::MissingFileName => ParseErrorV::MissingFileName,
            ParseError::UnknownListCommand => ParseErrorV::UnknownListCommand,
            ParseError::UnknownCommand { verb } => ParseErrorV::UnknownCommand { verb: verb@ },
        }
    }
}

impl ParseErrorV {
    /// The diagnostic text for each parse error.
    pub open spec fn message_spec(self) -> Seq<char> {
        match self {
            ParseErrorV::MissingSearchQuery => "Missing search query"@,
            ParseErrorV::AddUsage => "Usage: add into <file>\n<code>"@,
            ParseErrorV::ExpectedAddInto => "Expected 'add into <file>'"@,
            ParseErrorV::MissingFileName => "Missing file name"@,
            ParseErrorV::UnknownListCommand => "Unknown list command"@,
            ParseErrorV::UnknownCommand { verb } => "Unknown command: "@ + verb,
        }
    }
}

impl ParseError {
    /// The diagnostic text reported to the caller.
    pub fn message(&self) -> (r: String)
        ensures
            r@ == self@.message_spec(),
    {
        match self {
            ParseError::MissingSearchQuery => "Missing search query".to_owned(),
            ParseError::AddUsage => "Usage: add into <file>\n<code>".to_owned(),
            ParseError::ExpectedAddInto => "Expected 'add into <file>'".to_owned(),
            ParseError::MissingFileName => "Missing file name".to_owned(),
            ParseError::UnknownListCommand => "Unknown list command".to_owned(),
            ParseError::UnknownCommand { verb } => {
                let mut out = "Unknown command: ".to_owned();
                out.append(verb.as_str());
                out
            },
        }
    }
}

/// What `add <rest>` parses to: the rest must start with `into `, the text
/// after that prefix splits at the first newline into a trimmed file name
/// and the code to insert (empty when no newline is present).
pub open spec fn parse_add_spec(rest: Option<Seq<char>>) -> Result<CommandV, ParseErrorV> {
    match rest {
        Option::None => Result::Err(ParseErrorV::AddUsage),
        Option::Some(r) => if "into "@.is_prefix_of(r) {
            let after = r.subrange("into "@.len() as int, r.len() as int);
            let j = find_char(after, '\n');
            let file = trim_spec(
                if j >= 0 {
                    after.subrange(0, j)
                } else {
                    after
                },
            );
            let code = if j >= 0 {
                after.subrange(j + 1, after.len() as int)
            } else {
                Seq::<char>::empty()
            };
            Result::Ok(CommandV::AddInto { file, code })
        } else {
            Result::Err(ParseErrorV::ExpectedAddInto)
        },
    }
}

/// What `list <rest>` parses to: no rest or a rest starting with `files`
/// lists files; a rest starting with `functions ` carries the file name
/// after that prefix, and a bare `functions` is missing its file name.
pub open spec fn parse_list_spec(rest: Option<Seq<char>>) -> Result<CommandV, ParseErrorV> {
    match rest {
        Option::None => Result::Ok(CommandV::ListFiles),
        Option::Some(r) => if "files"@.is_prefix_of(r) {
            Result::Ok(CommandV::ListFiles)
        } else if "functions "@.is_prefix_of(r) {
            Result::Ok(
                CommandV::ListFunctions {
                    file: r.subrange("functions "@.len() as int, r.len() as int),
                },
            )
        } else if "functions"@.is_prefix_of(r) {
            Result::Err(ParseErrorV::MissingFileName)
        } else {
            Result::Err(ParseErrorV::UnknownListCommand)
        },
    }
}

/// What `show <rest>` parses to: a rest containing `::` splits at its first
/// occurrence into file and function, otherwise the rest is the file alone.
pub open spec fn parse_show_spec(rest: Option<Seq<char>>) -> Result<CommandV, ParseErrorV> {
    match rest {
        Option::None => Result::Err(ParseErrorV::MissingFileName),
        Option::Some(r) => {
            let k = find_sub(r, "::"@);
            if k >= 0 {
                Result::Ok(
                    CommandV::ShowFunction {
                        file: r.subrange(0, k),
                        function: r.subrange(k + 2, r.len() as int),
                    },
                )
            } else {
                Result::Ok(CommandV::ShowFile { file: r })
            }
        },
    }
}

/// Dispatch on the case-folded verb token.
pub open spec fn parse_verb_spec(verb: Seq<char>, rest: Option<Seq<char>>) -> Result<
    CommandV,
    ParseErrorV,
> {
    let lv = fold_case(verb);
    if lv == "search"@ {
        match rest {
            Option::None => Result::Err(ParseErrorV::MissingSearchQuery),
            Option::Some(q) => Result::Ok(CommandV::Search { query: q }),
        }
    } else if lv == "add"@ {
        parse_add_spec(rest)
    } else if lv == "build"@ {
        Result::Ok(CommandV::Build)
    } else if lv == "run"@ {
        match rest {
            Option::None => Result::Ok(CommandV::Run { args: Seq::empty() }),
            Option::Some(r) => Result::Ok(CommandV::Run { args: split_ws(r) }),
        }
    } else if lv == "test"@ {
        Result::Ok(CommandV::Test { test_name: rest })
    } else if lv == "profile"@ {
        Result::Ok(CommandV::Profile)
    } else if lv == "list"@ {
        parse_list_spec(rest)
    } else if lv == "show"@ {
        parse_show_spec(rest)
    } else if lv == "help"@ {
        Result::Ok(CommandV::Help)
    } else {
        Result::Err(ParseErrorV::UnknownCommand { verb })
    }
}

/// What parsing an input line yields: the input is trimmed, split at the
/// first space into a verb and a remainder, and dispatched on the verb,
/// case-insensitively.
pub open spec fn parse_spec(input: Seq<char>) -> Result<CommandV, ParseErrorV> {
    let t = trim_spec(input);
    let i = find_char(t, ' ');
    let verb = if i >= 0 {
        t.subrange(0, i)
    } else {
        t
    };
    let rest = if i >= 0 {
        Option::Some(t.subrange(i + 1, t.len() as int))
    } else {
        Option::<Seq<char>>::None
    };
    parse_verb_spec(verb, rest)
}

/// An input whose case-folded verb token is none of the recognized keywords
/// parses to an error naming that verb, never to a command.
pub proof fn lemma_unknown_verb_fails(input: Seq<char>)
    requires
        ({
            let t = trim_spec(input);
            let i = find_char(t, ' ');
            let verb = if i >= 0 {
                t.subrange(0, i)
            } else {
                t
            };
            let lv = fold_case(verb);
            lv != "search"@ && lv != "add"@ && lv != "build"@ && lv != "run"@ && lv != "test"@
                && lv != "profile"@ && lv != "list"@ && lv != "show"@ && lv != "help"@
        }),
    ensures
        ({
            let t = trim_spec(input);
            let i = find_char(t, ' ');
            let verb = if i >= 0 {
                t.subrange(0, i)
            } else {
                t
            };
            parse_spec(input) == Result::<CommandV, ParseErrorV>::Err(
                ParseErrorV::UnknownCommand { verb },
            )
        }),
{
}

/// Surrounding white space never changes what an input parses to: every
/// input parses exactly as its trimmed form does.
pub proof fn lemma_parse_trim_invariant(input: Seq<char>)
    ensures
        parse_spec(input) == parse_spec(trim_spec(input)),
{
    lemma_trim_idempotent(input);
}

impl Command {
    /// Parse one input line (or a multi-line insertion) into a command.
    pub fn parse(input: &str) -> (r: Result<Command, ParseError>)
        ensures
            match r {
                Ok(c) => parse_spec(input@) == Result::<CommandV, ParseErrorV>::Ok(c@),
                Err(e) => parse_spec(input@) == Result::<CommandV, ParseErrorV>::Err(e@),
            },
    {
        let t = trim(input);
        let tn = t.unicode_len();
        let ghost tv = t@;
        let mut verb: &str = t;
        let mut rest: Option<&str> = None;
        match find_first(t, ' ') {
            Some(i) => {
                proof {
                    lemma_find_char_props(tv, ' ');
                }
                verb = t.substring_char(0, i);
                rest = Some(t.substring_char(i + 1, tn));
            },
            None => {},
        }
        let ghost rv = match rest {
            Some(r) => Option::Some(r@),
            None => Option::<Seq<char>>::None,
        };
        let folded = lowercase(verb);
        let lv = folded.as_str();
        if eq_text(lv, "search") {
            match rest {
                Some(q) => Ok(Command::Search { query: q.to_owned() }),
                None => Err(ParseError::MissingSearchQuery),
            }
        } else if eq_text(lv, "add") {
            Self::parse_add(rest)
        } else if eq_text(lv, "build") {
            Ok(Command::Build)
        } else if eq_text(lv, "run") {
            match rest {
                Some(r) => {
                    let args = split_whitespace_vec(r);
                    Ok(Command::Run { args })
                },
                None => {
                    let args: Vec<String> = Vec::new();
                    proof {
                        assert(args.deep_view() =~= Seq::<Seq<char>>::empty());
                    }
                    Ok(Command::Run { args })
                },
            }
        } else if eq_text(lv, "test") {
            let test_name = match rest {
                Some(r) => Some(r.to_owned()),
                None => None,
            };
            Ok(Command::Test { test_name })
        } else if eq_text(lv, "profile") {
            Ok(Command::Profile)
        } else if eq_text(lv, "list") {
            Self::parse_list(rest)
        } else if eq_text(lv, "show") {
            Self::parse_show(rest)
        } else if eq_text(lv, "help") {
            Ok(Command::Help)
        } else {
            Err(ParseError::UnknownCommand { verb: verb.to_owned() })
        }
    }

    fn parse_add(rest: Option<&str>) -> (r: Result<Command, ParseError>)
        ensures
            ({
                let rv = match rest {
                    Some(s) => Option::Some(s@),
                    None => Option::<Seq<char>>::None,
                };
                match r {
                    Ok(c) => parse_add_spec(rv) == Result::<CommandV, ParseErrorV>::Ok(c@),
                    Err(e) => parse_add_spec(rv) == Result::<CommandV, ParseErrorV>::Err(e@),
                }
            }),
    {
        match rest {
            None => Err(ParseError::AddUsage),
            Some(r) => {
                if starts_with_text(r, "into ") {
                    proof {
                        reveal_strlit("into ");
                    }
                    let rn = r.unicode_len();
                    let after = r.substring_char(5, rn);
                    let ghost av = after@;
                    let an = after.unicode_len();
                    match find_first(after, '\n') {
                        Some(j) => {
                            proof {
                                lemma_find_char_props(av, '\n');
                            }
                            let file = trim(after.substring_char(0, j)).to_owned();
                            let code = after.substring_char(j + 1, an).to_owned();
                            Ok(Command::AddInto { file, code })
                        },
                        None => {
                            let file = trim(after).to_owned();
                            let code = String::new();
                            Ok(Command::AddInto { file, code })
                        },
                    }
                } else {
                    proof {
                        reveal_strlit("into ");
                    }
                    Err(ParseError::ExpectedAddInto)
                }
            },
        }
    }

    fn parse_list(rest: Option<&str>) -> (r: Result<Command, ParseError>)
        ensures
            ({
                let rv = match rest {
                    Some(s) => Option::Some(s@),
                    None => Option::<Seq<char>>::None,
                };
                match r {
                    Ok(c) => parse_list_spec(rv) == Result::<CommandV, ParseErrorV>::Ok(c@),
                    Err(e) => parse_list_spec(rv) == Result::<CommandV, ParseErrorV>::Err(e@),
                }
            }),
    {
        match rest {
            None => Ok(Command::ListFiles),
            Some(r) => {
                if starts_with_text(r, "files") {
                    Ok(Command::ListFiles)
                } else if starts_with_text(r, "functions ") {
                    proof {
                        reveal_strlit("functions ");
                    }
                    let rn = r.unicode_len();
                    let file = r.substring_char(10, rn).to_owned();
                    Ok(Command::ListFunctions { file })
                } else if starts_with_text(r, "functions") {
                    Err(ParseError::MissingFileName)
                } else {
                    Err(ParseError::UnknownListCommand)
                }
            },
        }
    }

    fn parse_show(rest: Option<&str>) -> (r: Result<Command, ParseError>)
        ensures
            ({
                let rv = match rest {
                    Some(s) => Option::Some(s@),
                    None => Option::<Seq<char>>::None,
                };
                match r {
                    Ok(c) => parse_show_spec(rv) == Result::<CommandV, ParseErrorV>::Ok(c@),
                    Err(e) => parse_show_spec(rv) == Result::<CommandV, ParseErrorV>::Err(e@),
                }
            }),
    {
        match rest {
            None => Err(ParseError::MissingFileName),
            Some(r) => {
                let rn = r.unicode_len();
                match find_text(r, "::") {
                    Some(k) => {
                        proof {
                            lemma_find_sub_props(r@, "::"@);
                            reveal_strlit("::");
                        }
                        let file = r.substring_char(0, k).to_owned();
                        let function = r.substring_char(k + 2, rn).to_owned();
                        Ok(Command::ShowFunction { file, function })
                    },
                    None => Ok(Command::ShowFile { file: r.to_owned() }),
                }
            },
        }
    }
}

} // verus!
