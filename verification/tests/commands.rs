use fmap::commands::arg_tokenizer;
use fmap::commands::CliError;
use fmap::commands::Command;

fn args(parts: &[&str]) -> Vec<String> {
    parts.iter().map(|s| s.to_string()).collect()
}

#[test]
fn no_arguments_defaults_to_a_plain_scan() {
    match arg_tokenizer(args(&["fmap"])).unwrap() {
        Command::Scan(e, fs, ds, fc) => {
            assert!(e);
            assert!(!fs && !ds && !fc);
        },
        other => panic!("unexpected command: {:?}", other),
    }
}

#[test]
fn named_commands_and_their_aliases() {
    assert!(matches!(
        arg_tokenizer(args(&["fmap", "config"])).unwrap(),
        Command::CreateConfig
    ));
    assert!(matches!(
        arg_tokenizer(args(&["fmap", "-c"])).unwrap(),
        Command::CreateConfig
    ));
    assert!(matches!(
        arg_tokenizer(args(&["fmap", "version"])).unwrap(),
        Command::Version
    ));
    assert!(matches!(
        arg_tokenizer(args(&["fmap", "-v"])).unwrap(),
        Command::Version
    ));
    assert!(matches!(
        arg_tokenizer(args(&["fmap", "install"])).unwrap(),
        Command::Install
    ));
    assert!(matches!(
        arg_tokenizer(args(&["fmap", "-h"])).unwrap(),
        Command::Help
    ));
}

#[test]
fn add_and_remove_take_a_kind_and_a_name() {
    match arg_tokenizer(args(&["fmap", "add", "-dir", "node_modules"])).unwrap() {
        Command::AddDirectory(name) => assert_eq!(name, "node_modules"),
        other => panic!("unexpected command: {:?}", other),
    }
    match arg_tokenizer(args(&["fmap", "-add", "-file", "notes.txt"])).unwrap() {
        Command::AddFile(name) => assert_eq!(name, "notes.txt"),
        other => panic!("unexpected command: {:?}", other),
    }
    match arg_tokenizer(args(&["fmap", "remove", "-dir", "target"])).unwrap() {
        Command::RemoveDirectory(name) => assert_eq!(name, "target"),
        other => panic!("unexpected command: {:?}", other),
    }
    match arg_tokenizer(args(&["fmap", "-rmv", "-file", "a.log"])).unwrap() {
        Command::RemoveFile(name) => assert_eq!(name, "a.log"),
        other => panic!("unexpected command: {:?}", other),
    }
}

#[test]
fn add_argument_counts_are_checked() {
    assert_eq!(
        arg_tokenizer(args(&["fmap", "add", "-dir"])).unwrap_err(),
        CliError::MissingArgument
    );
    assert_eq!(
        arg_tokenizer(args(&["fmap", "add", "-dir", "x", "y"])).unwrap_err(),
        CliError::TooManyArguments
    );
    assert_eq!(
        arg_tokenizer(args(&["fmap", "add", "-bogus", "x"])).unwrap_err(),
        CliError::InvalidSubcommand
    );
}

#[test]
fn list_takes_exactly_one_kind() {
    assert!(matches!(
        arg_tokenizer(args(&["fmap", "list", "-dir"])).unwrap(),
        Command::ListIgnoredDirectories
    ));
    assert!(matches!(
        arg_tokenizer(args(&["fmap", "-ls", "-file"])).unwrap(),
        Command::ListIgnoredFiles
    ));
    assert_eq!(
        arg_tokenizer(args(&["fmap", "list"])).unwrap_err(),
        CliError::MissingArgument
    );
    assert_eq!(
        arg_tokenizer(args(&["fmap", "list", "-dir", "extra"])).unwrap_err(),
        CliError::TooManyArguments
    );
    assert_eq!(
        arg_tokenizer(args(&["fmap", "list", "-bogus"])).unwrap_err(),
        CliError::InvalidSubcommand
    );
}

#[test]
fn scan_collects_display_flags() {
    match arg_tokenizer(args(&["fmap", "scan", "-fs", "-fc"])).unwrap() {
        Command::Scan(e, fs, ds, fc) => {
            assert!(!e && fs && !ds && fc);
        },
        other => panic!("unexpected command: {:?}", other),
    }
    assert_eq!(
        arg_tokenizer(args(&["fmap", "scan", "-bogus"])).unwrap_err(),
        CliError::InvalidSubcommand
    );
}

#[test]
fn scan_path_takes_a_path_then_flags() {
    match arg_tokenizer(args(&["fmap", "scan-path", "/tmp/things", "-e", "-ds"])).unwrap() {
        Command::ScanPath(path, e, fs, ds, fc) => {
            assert_eq!(path, "/tmp/things");
            assert!(e && !fs && ds && !fc);
        },
        other => panic!("unexpected command: {:?}", other),
    }
    assert_eq!(
        arg_tokenizer(args(&["fmap", "scan-path"])).unwrap_err(),
        CliError::MissingArgument
    );
}

#[test]
fn unknown_commands_are_reported() {
    assert_eq!(
        arg_tokenizer(args(&["fmap", "bogus"])).unwrap_err(),
        CliError::UnknownCommand
    );
}

#[test]
fn error_messages_match_what_is_printed() {
    assert_eq!(CliError::MissingArgument.message(), "a required argument is missing");
    assert_eq!(CliError::TooManyArguments.message(), "too many arguments found");
    assert_eq!(CliError::InvalidSubcommand.message(), "invalid subcommand");
    assert_eq!(CliError::UnknownCommand.message(), "unknown command");
}
