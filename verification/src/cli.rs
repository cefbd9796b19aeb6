//! The command-line front end's pure parser: from the argument list (after
//! the program name) to a structured request, plus the usage and error
//! lines. Reading the real process arguments and printing is the caller's
//! business.

use vstd::prelude::*;

use crate::order::str_eq;
use crate::render::names_view;

verus! {

/// A parsed command-line request.
#[derive(PartialEq, Eq, Debug)]
pub enum Command {
    ShowUsage,
    Project { name: String, language: String },
    Status { path: String, ignore: Vec<String> },
    Help,
    Version,
}

/// A refused command line.
#[derive(PartialEq, Eq, Debug)]
pub enum CliError {
    ProjectUsage,
    StatusUsage,
    InvalidArgument { argument: String },
    InvalidCommand { command: String },
}

/// The mathematical shape of a parsed request.
#[verifier::ext_equal]
pub enum GCommand {
    ShowUsage,
    Project { name: Seq<char>, language: Seq<char> },
    Status { path: Seq<char>, ignore: Seq<Seq<char>> },
    Help,
    Version,
}

/// The mathematical shape of a refused command line.
#[verifier::ext_equal]
pub enum GCliError {
    ProjectUsage,
    StatusUsage,
    InvalidArgument { argument: Seq<char> },
    InvalidCommand { command: Seq<char> },
}

/// The shape of an executable request.
pub open spec fn command_view(c: Command) -> GCommand {
    match c {
        Command::ShowUsage => GCommand::ShowUsage,
        Command::Project { name, language } => GCommand::Project {
            name: name@,
            language: language@,
        },
        Command::Status { path, ignore } => GCommand::Status {
            path: path@,
            ignore: names_view(ignore@),
        },
        Command::Help => GCommand::Help,
        Command::Version => GCommand::Version,
    }
}

/// The shape of an executable parse error.
pub open spec fn cli_error_view(e: CliError) -> GCliError {
    match e {
        CliError::ProjectUsage => GCliError::ProjectUsage,
        CliError::StatusUsage => GCliError::StatusUsage,
        CliError::InvalidArgument { argument } => GCliError::InvalidArgument {
            argument: argument@,
        },
        CliError::InvalidCommand { command } => GCliError::InvalidCommand { command: command@ },
    }
}

/// The shape of a parse result.
pub open spec fn parse_result_view(r: Result<Command, CliError>) -> Result<GCommand, GCliError> {
    match r {
        Ok(c) => Ok(command_view(c)),
        Err(e) => Err(cli_error_view(e)),
    }
}

/// An argument that looks like a flag: it begins with `--`.
pub open spec fn starts_dash_dash(s: Seq<char>) -> bool {
    s.len() >= 2 && s[0] == '-' && s[1] == '-'
}

/// The ignore names following one `--ignore` flag: every argument from
/// position `i` up to the next flag or the end, together with the position
/// after them.
pub open spec fn take_names(args: Seq<Seq<char>>, i: int) -> (Seq<Seq<char>>, int)
    decreases args.len() - i,
{
    if i >= args.len() || starts_dash_dash(args[i]) {
        (Seq::empty(), i)
    } else {
        let (rest, j) = take_names(args, i + 1);
        (seq![args[i]] + rest, j)
    }
}

proof fn lemma_take_names_bound(args: Seq<Seq<char>>, i: int)
    requires
        0 <= i <= args.len(),
    ensures
        i <= take_names(args, i).1 <= args.len(),
    decreases args.len() - i,
{
    if !(i >= args.len() || starts_dash_dash(args[i])) {
        lemma_take_names_bound(args, i + 1);
    }
}

/// The ignore names collected from position `i` to the end of the argument
/// list: groups introduced by `--ignore`, in order; any other argument is
/// invalid.
pub open spec fn parse_ignore_groups(args: Seq<Seq<char>>, i: int) -> Result<
    Seq<Seq<char>>,
    GCliError,
>
    decreases args.len() - i,
    when 0 <= i <= args.len()
    via parse_ignore_groups_dec
{
    if i >= args.len() {
        Ok(Seq::empty())
    } else if args[i] == "--ignore"@ {
        let (names, j) = take_names(args, i + 1);
        match parse_ignore_groups(args, j) {
            Ok(rest) => Ok(names + rest),
            Err(e) => Err(e),
        }
    } else {
        Err(GCliError::InvalidArgument { argument: args[i] })
    }
}

#[via_fn]
proof fn parse_ignore_groups_dec(args: Seq<Seq<char>>, i: int) {
    if 0 <= i < args.len() {
        lemma_take_names_bound(args, i + 1);
    }
}

/// What a full argument list (the arguments after the program name) parses
/// to.
pub open spec fn spec_parse_args(args: Seq<Seq<char>>) -> Result<GCommand, GCliError> {
    if args.len() == 0 {
        Ok(GCommand::ShowUsage)
    } else if args[0] == "project"@ {
        if args.len() != 3 {
            Err(GCliError::ProjectUsage)
        } else {
            Ok(GCommand::Project { name: args[1], language: args[2] })
        }
    } else if args[0] == "status"@ {
        if args.len() < 2 {
            Err(GCliError::StatusUsage)
        } else {
            match parse_ignore_groups(args, 2) {
                Ok(names) => Ok(GCommand::Status { path: args[1], ignore: names }),
                Err(e) => Err(e),
            }
        }
    } else if args[0] == "help"@ {
        Ok(GCommand::Help)
    } else if args[0] == "version"@ {
        Ok(GCommand::Version)
    } else {
        Err(GCliError::InvalidCommand { command: args[0] })
    }
}

/// Decide whether an argument begins with `--`.
fn starts_dash_dash_exec(s: &str) -> (r: bool)
    ensures
        r == starts_dash_dash(s@),
{
    let n = s.unicode_len();
    if n < 2 {
        false
    } else {
        let c0 = s.get_char(0);
        let c1 = s.get_char(1);
        c0 == '-' && c1 == '-'
    }
}

/// Collect the names of one `--ignore` group.
fn take_names_exec(args: &Vec<String>, i: usize) -> (r: (Vec<String>, usize))
    requires
        i <= args.len(),
    ensures
        names_view(r.0@) == take_names(names_view(args@), i as int).0,
        r.1 as int == take_names(names_view(args@), i as int).1,
        i <= r.1 <= args.len(),
    decreases args.len() - i,
{
    proof {
        lemma_take_names_bound(names_view(args@), i as int);
    }
    if i >= args.len() || starts_dash_dash_exec(args[i].as_str()) {
        let v: Vec<String> = Vec::new();
        assert(names_view(v@) =~= Seq::<Seq<char>>::empty());
        (v, i)
    } else {
        let (rest, j) = take_names_exec(args, i + 1);
        let mut out: Vec<String> = Vec::new();
        out.push(args[i].clone());
        let mut rest = rest;
        out.append(&mut rest);
        assert(names_view(out@) =~= seq![names_view(args@)[i as int]] + take_names(
            names_view(args@),
            i + 1,
        ).0);
        (out, j)
    }
}

/// Collect every `--ignore` group from position `i` on.
fn collect_ignores(args: &Vec<String>, i: usize) -> (r: Result<Vec<String>, CliError>)
    requires
        i <= args.len(),
    ensures
        ({
            let g = parse_ignore_groups(names_view(args@), i as int);
            match r {
                Ok(v) => g == Ok::<Seq<Seq<char>>, GCliError>(names_view(v@)),
                Err(e) => g == Err::<Seq<Seq<char>>, GCliError>(cli_error_view(e)),
            }
        }),
    decreases args.len() - i,
{
    if i >= args.len() {
        let v: Vec<String> = Vec::new();
        assert(names_view(v@) =~= Seq::<Seq<char>>::empty());
        Ok(v)
    } else if str_eq(args[i].as_str(), "--ignore") {
        let (names, j) = take_names_exec(args, i + 1);
        match collect_ignores(args, j) {
            Ok(rest) => {
                let mut names = names;
                let mut rest = rest;
                names.append(&mut rest);
                assert(names_view(names@) =~= take_names(names_view(args@), i + 1).0
                    + parse_ignore_groups(names_view(args@), take_names(
                    names_view(args@),
                    i + 1,
                ).1)->Ok_0);
                Ok(names)
            },
            Err(e) => Err(e),
        }
    } else {
        Err(CliError::InvalidArgument { argument: args[i].clone() })
    }
}

/// Parse the command line (the arguments after the program name) into a
/// request, or say exactly why it is refused.
pub fn parse_args(args: &Vec<String>) -> (r: Result<Command, CliError>)
    ensures
        parse_result_view(r) == spec_parse_args(names_view(args@)),
{
    if args.len() == 0 {
        return Ok(Command::ShowUsage);
    }
    let cmd = args[0].as_str();
    if str_eq(cmd, "project") {
        if args.len() != 3 {
            Err(CliError::ProjectUsage)
        } else {
            Ok(Command::Project { name: args[1].clone(), language: args[2].clone() })
        }
    } else if str_eq(cmd, "status") {
        if args.len() < 2 {
            Err(CliError::StatusUsage)
        } else {
            match collect_ignores(args, 2) {
                Ok(names) => Ok(Command::Status { path: args[1].clone(), ignore: names }),
                Err(e) => Err(e),
            }
        }
    } else if str_eq(cmd, "help") {
        Ok(Command::Help)
    } else if str_eq(cmd, "version") {
        Ok(Command::Version)
    } else {
        Err(CliError::InvalidCommand { command: args[0].clone() })
    }
}

/// The usage summary, line by line.
pub open spec fn spec_usage_lines() -> Seq<Seq<char>> {
    seq![
        "Usage: devil <command> [options]"@,
        "Commands:"@,
        "  project <project_name> <project_language>"@,
        "  status <path> [--ignore <folder1> <folder2> ...]"@,
        "  help"@,
    ]
}

/// Build the usage summary.
pub fn usage_lines() -> (r: Vec<String>)
    ensures
        names_view(r@) == spec_usage_lines(),
{
    let mut v: Vec<String> = Vec::new();
    v.push(String::from_str("Usage: devil <command> [options]"));
    v.push(String::from_str("Commands:"));
    v.push(String::from_str("  project <project_name> <project_language>"));
    v.push(String::from_str("  status <path> [--ignore <folder1> <folder2> ...]"));
    v.push(String::from_str("  help"));
    assert(names_view(v@) =~= spec_usage_lines());
    v
}

/// The error line for a refused command line.
pub open spec fn spec_cli_error_message(e: GCliError) -> Seq<char> {
    match e {
        GCliError::ProjectUsage => "Usage: devil project <project_name> <project_language>"@,
        GCliError::StatusUsage => "Usage: devil status <path> [--ignore <folder1> <folder2> ...]"@,
        GCliError::InvalidArgument { argument } => "Invalid argument: "@ + argument,
        GCliError::InvalidCommand { command } => "Invalid command: "@ + command,
    }
}

/// Build the error line for a refused command line.
pub fn cli_error_message(e: &CliError) -> (r: String)
    ensures
        r@ == spec_cli_error_message(cli_error_view(*e)),
{
    match e {
        CliError::ProjectUsage => String::from_str(
            "Usage: devil project <project_name> <project_language>",
        ),
        CliError::StatusUsage => String::from_str(
            "Usage: devil status <path> [--ignore <folder1> <folder2> ...]",
        ),
        CliError::InvalidArgument { argument } => {
            let mut m = String::from_str("Invalid argument: ");
            m.append(argument.as_str());
            m
        },
        CliError::InvalidCommand { command } => {
            let mut m = String::from_str("Invalid command: ");
            m.append(command.as_str());
            m
        },
    }
}

} // verus!
