//! Tokenizing of command-line arguments.
//!
//! The first argument is the program's own path and is skipped. What
//! follows selects a command; `add`, `remove` and `list` take a `-dir` or
//! `-file` subcommand and a name, and the two scan forms take display
//! flags. Bad input is reported as a [`CliError`] naming what the caller
//! should print.

use crate::text::str_eq;
use vstd::prelude::*;
use vstd::string::StrSliceExecFns;
use vstd::string::StringExecFns;

verus! {

/// What the command line asks for.
#[derive(Debug)]
pub enum Command {
    Help,
    Version,
    CreateConfig,
    Install,
    AddDirectory(String),
    AddFile(String),
    RemoveDirectory(String),
    RemoveFile(String),
    ListIgnoredDirectories,
    ListIgnoredFiles,
    Scan(bool, bool, bool, bool),
    ScanPath(String, bool, bool, bool, bool),
}

/// The mathematical shadow of a [`Command`].
pub enum CommandModel {
    Help,
    Version,
    CreateConfig,
    Install,
    AddDirectory(Seq<char>),
    AddFile(Seq<char>),
    RemoveDirectory(Seq<char>),
    RemoveFile(Seq<char>),
    ListIgnoredDirectories,
    ListIgnoredFiles,
    Scan(bool, bool, bool, bool),
    ScanPath(Seq<char>, bool, bool, bool, bool),
}

/// The ways a command line can be rejected.
#[derive(Debug, PartialEq, Eq, Structural, Clone, Copy)]
pub enum CliError {
    MissingArgument,
    TooManyArguments,
    InvalidSubcommand,
    UnknownCommand,
}

impl CliError {
    /// The error text the caller should print.
    pub fn message(&self) -> (r: &'static str)
        ensures
            *self is MissingArgument ==> r@ == "a required argument is missing"@,
            *self is TooManyArguments ==> r@ == "too many arguments found"@,
            *self is InvalidSubcommand ==> r@ == "invalid subcommand"@,
            *self is UnknownCommand ==> r@ == "unknown command"@,
    {
        match self {
            Self::MissingArgument => "a required argument is missing",
            Self::TooManyArguments => "too many arguments found",
            Self::InvalidSubcommand => "invalid subcommand",
            Self::UnknownCommand => "unknown command",
        }
    }
}

/// The model of a command.
pub open spec fn command_view(c: Command) -> CommandModel {
    match c {
        Command::Help => CommandModel::Help,
        Command::Version => CommandModel::Version,
        Command::CreateConfig => CommandModel::CreateConfig,
        Command::Install => CommandModel::Install,
        Command::AddDirectory(n) => CommandModel::AddDirectory(n@),
        Command::AddFile(n) => CommandModel::AddFile(n@),
        Command::RemoveDirectory(n) => CommandModel::RemoveDirectory(n@),
        Command::RemoveFile(n) => CommandModel::RemoveFile(n@),
        Command::ListIgnoredDirectories => CommandModel::ListIgnoredDirectories,
        Command::ListIgnoredFiles => CommandModel::ListIgnoredFiles,
        Command::Scan(e, fs, ds, fc) => CommandModel::Scan(e, fs, ds, fc),
        Command::ScanPath(p, e, fs, ds, fc) => CommandModel::ScanPath(p@, e, fs, ds, fc),
    }
}

/// The model of a tokenizing result.
pub open spec fn token_result_view(r: Result<Command, CliError>) -> Result<
    CommandModel,
    CliError,
> {
    match r {
        Ok(c) => Ok(command_view(c)),
        Err(e) => Err(e),
    }
}

/// Whether an argument is one of the four display flags.
pub open spec fn spec_is_flag(s: Seq<char>) -> bool {
    ||| s == "-e"@
    ||| s == "-fs"@
    ||| s == "-ds"@
    ||| s == "-fc"@
}

/// Whether every argument in `[from, upto)` is a display flag.
pub open spec fn spec_flags_ok(args: Seq<Seq<char>>, from: int, upto: int) -> bool {
    forall|k: int| from <= k < upto ==> spec_is_flag(#[trigger] args[k])
}

/// Whether some argument in `[from, upto)` equals the given flag.
pub open spec fn spec_has_flag(args: Seq<Seq<char>>, from: int, upto: int, f: Seq<char>) -> bool {
    exists|k: int| from <= k < upto && #[trigger] args[k] == f
}

/// Extending the scanned range by one argument adds exactly that argument's
/// flags.
proof fn lemma_has_flag_extend(args: Seq<Seq<char>>, from: int, upto: int, f: Seq<char>)
    requires
        from <= upto,
    ensures
        spec_has_flag(args, from, upto + 1, f) == (spec_has_flag(args, from, upto, f) || args[upto]
            == f),
{
    if spec_has_flag(args, from, upto + 1, f) {
        let k = choose|k: int| from <= k < upto + 1 && #[trigger] args[k] == f;
        if k < upto {
            assert(spec_has_flag(args, from, upto, f));
        }
    }
    if args[upto] == f {
        assert(from <= upto < upto + 1 && args[upto] == f);
        assert(spec_has_flag(args, from, upto + 1, f));
    }
}

/// What tokenizing a full argument vector (program path first) yields.
pub open spec fn spec_tokenize(args: Seq<Seq<char>>) -> Result<CommandModel, CliError> {
    let rest = args.drop_first();
    if rest.len() == 0 {
        Ok(CommandModel::Scan(true, false, false, false))
    } else {
        let c = rest[0];
        if c == "config"@ || c == "-c"@ {
            Ok(CommandModel::CreateConfig)
        } else if c == "version"@ || c == "-v"@ {
            Ok(CommandModel::Version)
        } else if c == "install"@ || c == "-i"@ {
            Ok(CommandModel::Install)
        } else if c == "help"@ || c == "-h"@ {
            Ok(CommandModel::Help)
        } else if c == "add"@ || c == "-add"@ {
            if rest.len() < 3 {
                Err(CliError::MissingArgument)
            } else if rest.len() > 3 {
                Err(CliError::TooManyArguments)
            } else if rest[1] == "-dir"@ {
                Ok(CommandModel::AddDirectory(rest[2]))
            } else if rest[1] == "-file"@ {
                Ok(CommandModel::AddFile(rest[2]))
            } else {
                Err(CliError::InvalidSubcommand)
            }
        } else if c == "remove"@ || c == "-rmv"@ {
            if rest.len() < 3 {
                Err(CliError::MissingArgument)
            } else if rest.len() > 3 {
                Err(CliError::TooManyArguments)
            } else if rest[1] == "-dir"@ {
                Ok(CommandModel::RemoveDirectory(rest[2]))
            } else if rest[1] == "-file"@ {
                Ok(CommandModel::RemoveFile(rest[2]))
            } else {
                Err(CliError::InvalidSubcommand)
            }
        } else if c == "list"@ || c == "-ls"@ {
            if rest.len() < 2 {
                Err(CliError::MissingArgument)
            } else if rest.len() > 2 {
                Err(CliError::TooManyArguments)
            } else if rest[1] == "-dir"@ {
                Ok(CommandModel::ListIgnoredDirectories)
            } else if rest[1] == "-file"@ {
                Ok(CommandModel::ListIgnoredFiles)
            } else {
                Err(CliError::InvalidSubcommand)
            }
        } else if c == "scan"@ || c == "-s"@ {
            if !spec_flags_ok(rest, 1, rest.len() as int) {
                Err(CliError::InvalidSubcommand)
            } else {
                Ok(
                    CommandModel::Scan(
                        spec_has_flag(rest, 1, rest.len() as int, "-e"@),
                        spec_has_flag(rest, 1, rest.len() as int, "-fs"@),
                        spec_has_flag(rest, 1, rest.len() as int, "-ds"@),
                        spec_has_flag(rest, 1, rest.len() as int, "-fc"@),
                    ),
                )
            }
        } else if c == "scan-path"@ || c == "-sp"@ {
            if rest.len() < 2 {
                Err(CliError::MissingArgument)
            } else if !spec_flags_ok(rest, 2, rest.len() as int) {
                Err(CliError::InvalidSubcommand)
            } else {
                Ok(
                    CommandModel::ScanPath(
                        rest[1],
                        spec_has_flag(rest, 2, rest.len() as int, "-e"@),
                        spec_has_flag(rest, 2, rest.len() as int, "-fs"@),
                        spec_has_flag(rest, 2, rest.len() as int, "-ds"@),
                        spec_has_flag(rest, 2, rest.len() as int, "-fc"@),
                    ),
                )
            }
        } else {
            Err(CliError::UnknownCommand)
        }
    }
}

/// Collects the display flags among the arguments from absolute index
/// `from` on; fails when any of them is not a flag.
fn collect_flags(args: &Vec<String>, from: usize) -> (r: Result<(bool, bool, bool, bool), CliError>)
    requires
        from >= 1,
        from <= args@.len(),
    ensures
        ({
            let rest = args.deep_view().drop_first();
            match r {
                Ok(f) => {
                    &&& spec_flags_ok(rest, from - 1, rest.len() as int)
                    &&& f.0 == spec_has_flag(rest, from - 1, rest.len() as int, "-e"@)
                    &&& f.1 == spec_has_flag(rest, from - 1, rest.len() as int, "-fs"@)
                    &&& f.2 == spec_has_flag(rest, from - 1, rest.len() as int, "-ds"@)
                    &&& f.3 == spec_has_flag(rest, from - 1, rest.len() as int, "-fc"@)
                },
                Err(e) => !spec_flags_ok(rest, from - 1, rest.len() as int) && e
                    == CliError::InvalidSubcommand,
            }
        }),
{
    let ghost rest = args.deep_view().drop_first();
    let n = args.len();
    let mut show_endings = false;
    let mut show_file_sizes = false;
    let mut show_directory_sizes = false;
    let mut show_file_counts = false;
    let mut i: usize = from;
    while i < n
        invariant
            n == args@.len(),
            rest == args.deep_view().drop_first(),
            1 <= from <= i <= n,
            spec_flags_ok(rest, from - 1, i - 1),
            show_endings == spec_has_flag(rest, from - 1, i - 1, "-e"@),
            show_file_sizes == spec_has_flag(rest, from - 1, i - 1, "-fs"@),
            show_directory_sizes == spec_has_flag(rest, from - 1, i - 1, "-ds"@),
            show_file_counts == spec_has_flag(rest, from - 1, i - 1, "-fc"@),
        decreases n - i,
    {
        let a = args[i].as_str();
        proof {
            assert(rest[i - 1] == args.deep_view()[i as int]);
        }
        let is_e = str_eq(a, "-e");
        let is_fs = str_eq(a, "-fs");
        let is_ds = str_eq(a, "-ds");
        let is_fc = str_eq(a, "-fc");
        if !is_e && !is_fs && !is_ds && !is_fc {
            proof {
                assert(!spec_is_flag(rest[i - 1]));
                assert(!spec_flags_ok(rest, from - 1, rest.len() as int));
            }
            return Err(CliError::InvalidSubcommand);
        }
        if is_e {
            show_endings = true;
        }
        if is_fs {
            show_file_sizes = true;
        }
        if is_ds {
            show_directory_sizes = true;
        }
        if is_fc {
            show_file_counts = true;
        }
        proof {
            lemma_has_flag_extend(rest, from - 1, i - 1, "-e"@);
            lemma_has_flag_extend(rest, from - 1, i - 1, "-fs"@);
            lemma_has_flag_extend(rest, from - 1, i - 1, "-ds"@);
            lemma_has_flag_extend(rest, from - 1, i - 1, "-fc"@);
        }
        i = i + 1;
    }
    proof {
        assert(i - 1 == rest.len());
    }
    Ok((show_endings, show_file_sizes, show_directory_sizes, show_file_counts))
}

/// Tokenizes a full argument vector (the program's own path first) into the
/// command it asks for, or the error the caller should report.
pub fn arg_tokenizer(args: Vec<String>) -> (r: Result<Command, CliError>)
    requires
        args@.len() >= 1,
    ensures
        token_result_view(r) == spec_tokenize(args.deep_view()),
{
    let ghost rest = args.deep_view().drop_first();
    let n = args.len();
    if n == 1 {
        return Ok(Command::Scan(true, false, false, false));
    }
    proof {
        assert(rest[0] == args.deep_view()[1]);
        assert(forall|k: int| 1 <= k < rest.len() + 1 ==> rest[k - 1] == args.deep_view()[k]);
    }
    let c = args[1].as_str();
    if str_eq(c, "config") || str_eq(c, "-c") {
        Ok(Command::CreateConfig)
    } else if str_eq(c, "version") || str_eq(c, "-v") {
        Ok(Command::Version)
    } else if str_eq(c, "install") || str_eq(c, "-i") {
        Ok(Command::Install)
    } else if str_eq(c, "help") || str_eq(c, "-h") {
        Ok(Command::Help)
    } else if str_eq(c, "add") || str_eq(c, "-add") {
        if n < 4 {
            Err(CliError::MissingArgument)
        } else if n > 4 {
            Err(CliError::TooManyArguments)
        } else if str_eq(args[2].as_str(), "-dir") {
            Ok(Command::AddDirectory(args[3].clone()))
        } else if str_eq(args[2].as_str(), "-file") {
            Ok(Command::AddFile(args[3].clone()))
        } else {
            Err(CliError::InvalidSubcommand)
        }
    } else if str_eq(c, "remove") || str_eq(c, "-rmv") {
        if n < 4 {
            Err(CliError::MissingArgument)
        } else if n > 4 {
            Err(CliError::TooManyArguments)
        } else if str_eq(args[2].as_str(), "-dir") {
            Ok(Command::RemoveDirectory(args[3].clone()))
        } else if str_eq(args[2].as_str(), "-file") {
            Ok(Command::RemoveFile(args[3].clone()))
        } else {
            Err(CliError::InvalidSubcommand)
        }
    } else if str_eq(c, "list") || str_eq(c, "-ls") {
        if n < 3 {
            Err(CliError::MissingArgument)
        } else if n > 3 {
            Err(CliError::TooManyArguments)
        } else if str_eq(args[2].as_str(), "-dir") {
            Ok(Command::ListIgnoredDirectories)
        } else if str_eq(args[2].as_str(), "-file") {
            Ok(Command::ListIgnoredFiles)
        } else {
            Err(CliError::InvalidSubcommand)
        }
    } else if str_eq(c, "scan") || str_eq(c, "-s") {
        match collect_flags(&args, 2) {
            Ok(f) => Ok(Command::Scan(f.0, f.1, f.2, f.3)),
            Err(e) => Err(e),
        }
    } else if str_eq(c, "scan-path") || str_eq(c, "-sp") {
        if n < 3 {
            Err(CliError::MissingArgument)
        } else {
            match collect_flags(&args, 3) {
                Ok(f) => Ok(Command::ScanPath(args[2].clone(), f.0, f.1, f.2, f.3)),
                Err(e) => Err(e),
            }
        }
    } else {
        Err(CliError::UnknownCommand)
    }
}

} // verus!
