use dotman::cli::{parse_args, Command, UsageError};

fn args(words: &[&str]) -> Vec<String> {
    words.iter().map(|w| w.to_string()).collect()
}

#[test]
fn add_accepts_one_path() {
    let command = parse_args(&args(&["dotman", "add", ".zshrc"])).unwrap();
    match command {
        Command::Add { path, name } => {
            assert_eq!(path, ".zshrc".to_string());
            assert_eq!(name, None);
        }
        _ => panic!("expected add command"),
    }
}

#[test]
fn add_rejects_a_second_path() {
    let result = parse_args(&args(&["dotman", "add", ".zshrc", ".zshrc"]));
    assert!(result.is_err());
    assert_eq!(result.unwrap_err(), UsageError::UnexpectedArgument(3));
}

#[test]
fn add_reads_the_name_option_in_both_forms() {
    match parse_args(&args(&["dotman", "add", "--name", "neovim", "~/.config/nvim"])).unwrap() {
        Command::Add { path, name } => {
            assert_eq!(path, "~/.config/nvim");
            assert_eq!(name, Some("neovim".to_string()));
        }
        _ => panic!("expected add command"),
    }
    match parse_args(&args(&["dotman", "add", "x", "--name=shell"])).unwrap() {
        Command::Add { path, name } => {
            assert_eq!(path, "x");
            assert_eq!(name, Some("shell".to_string()));
        }
        _ => panic!("expected add command"),
    }
    match parse_args(&args(&["dotman", "add", "--name=", "x"])).unwrap() {
        Command::Add { name, .. } => assert_eq!(name, Some(String::new())),
        _ => panic!("expected add command"),
    }
}

#[test]
fn add_option_errors() {
    assert_eq!(
        parse_args(&args(&["dotman", "add", "x", "--name"])).unwrap_err(),
        UsageError::MissingValue
    );
    assert_eq!(
        parse_args(&args(&["dotman", "add", "--name", "--other", "x"])).unwrap_err(),
        UsageError::MissingValue
    );
    assert_eq!(
        parse_args(&args(&["dotman", "add", "--name", "a", "--name=b", "x"])).unwrap_err(),
        UsageError::DuplicateName
    );
    assert_eq!(
        parse_args(&args(&["dotman", "add", "--force", "x"])).unwrap_err(),
        UsageError::UnknownArgument(2)
    );
    assert_eq!(parse_args(&args(&["dotman", "add"])).unwrap_err(), UsageError::MissingPath);
    assert_eq!(parse_args(&args(&["dotman", "add", ""])).unwrap_err(), UsageError::EmptyPath);
}

#[test]
fn double_dash_makes_later_arguments_positional() {
    match parse_args(&args(&["dotman", "remove", "--", "--weird"])).unwrap() {
        Command::Remove { path } => assert_eq!(path, "--weird"),
        _ => panic!("expected remove command"),
    }
    assert_eq!(
        parse_args(&args(&["dotman", "remove", "a", "--", "b"])).unwrap_err(),
        UsageError::UnexpectedArgument(4)
    );
}

#[test]
fn subcommands_without_arguments() {
    assert!(matches!(parse_args(&args(&["dotman", "init"])), Ok(Command::Init)));
    assert!(matches!(parse_args(&args(&["dotman", "list"])), Ok(Command::List)));
    assert!(matches!(parse_args(&args(&["dotman", "restore"])), Ok(Command::Restore)));
    assert!(matches!(parse_args(&args(&["dotman", "status"])), Ok(Command::Status)));
    assert_eq!(
        parse_args(&args(&["dotman", "list", "extra"])).unwrap_err(),
        UsageError::UnexpectedArgument(2)
    );
    assert_eq!(
        parse_args(&args(&["dotman", "init", "--name", "x"])).unwrap_err(),
        UsageError::UnknownArgument(2)
    );
}

#[test]
fn help_version_and_missing_subcommand() {
    assert_eq!(parse_args(&args(&["dotman"])).unwrap_err(), UsageError::MissingSubcommand);
    assert_eq!(parse_args(&args(&["dotman", "--help"])).unwrap_err(), UsageError::Help);
    assert_eq!(parse_args(&args(&["dotman", "help"])).unwrap_err(), UsageError::Help);
    assert_eq!(parse_args(&args(&["dotman", "-V"])).unwrap_err(), UsageError::Version);
    assert_eq!(parse_args(&args(&["dotman", "add", "-h"])).unwrap_err(), UsageError::Help);
    assert_eq!(
        parse_args(&args(&["dotman", "push"])).unwrap_err(),
        UsageError::UnknownSubcommand(1)
    );
    assert_eq!(
        parse_args(&args(&["dotman", "-x"])).unwrap_err(),
        UsageError::UnknownArgument(1)
    );
}

/// The same command line, declared with clap's builder as the original
/// program declared it with clap's derive.
fn clap_command() -> clap::Command {
    let path = || {
        clap::Arg::new("path")
            .required(true)
            .value_parser(clap::builder::PathBufValueParser::new())
    };
    clap::Command::new("dotman")
        .version("0.1.0")
        .about("Manage Unix dotfiles with symbolic links")
        .subcommand_required(true)
        .arg_required_else_help(true)
        .subcommand(clap::Command::new("init"))
        .subcommand(
            clap::Command::new("add")
                .arg(path())
                .arg(clap::Arg::new("name").long("name").action(clap::ArgAction::Set)),
        )
        .subcommand(clap::Command::new("remove").arg(path()))
        .subcommand(clap::Command::new("list"))
        .subcommand(clap::Command::new("restore"))
        .subcommand(clap::Command::new("status"))
}

/// What clap makes of a command line, in the terms of `parse_args`:
/// the command, or whether it asked for help or the version, or another error.
fn clap_reading(words: &[String]) -> Result<Command, Option<UsageError>> {
    match clap_command().try_get_matches_from(words) {
        Ok(matches) => {
            let (name, sub) = matches.subcommand().expect("a subcommand is required");
            let path = || {
                sub.get_one::<std::path::PathBuf>("path")
                    .map(|p| p.to_string_lossy().into_owned())
                    .unwrap()
            };
            Ok(match name {
                "init" => Command::Init,
                "add" => Command::Add { path: path(), name: sub.get_one::<String>("name").cloned() },
                "remove" => Command::Remove { path: path() },
                "list" => Command::List,
                "restore" => Command::Restore,
                "status" => Command::Status,
                other => panic!("unexpected subcommand {other}"),
            })
        }
        Err(error) => Err(match error.kind() {
            clap::error::ErrorKind::DisplayHelp => Some(UsageError::Help),
            clap::error::ErrorKind::DisplayVersion => Some(UsageError::Version),
            _ => None,
        }),
    }
}

fn same_command(a: &Command, b: &Command) -> bool {
    match (a, b) {
        (Command::Init, Command::Init)
        | (Command::List, Command::List)
        | (Command::Restore, Command::Restore)
        | (Command::Status, Command::Status) => true,
        (Command::Add { path: p, name: n }, Command::Add { path: q, name: m }) => p == q && n == m,
        (Command::Remove { path: p }, Command::Remove { path: q }) => p == q,
        _ => false,
    }
}

#[test]
fn grammar_agrees_with_clap() {
    let pool = [
        "add", "remove", "init", "list", "help", "status", "restore", "x", ".zshrc", "-", "", "--",
        "--name", "--name=", "--name=a", "-h", "--help", "-V", "--version", "-x", "-hx", "--bogus",
        "-5", "--help=1",
    ];
    let mut lines: Vec<Vec<String>> = vec![vec!["dotman".to_string()]];
    for length in 1..=3 {
        let mut next = Vec::new();
        for line in lines.iter().filter(|l| l.len() == length) {
            for word in pool {
                let mut longer = line.clone();
                longer.push(word.to_string());
                next.push(longer);
            }
        }
        lines.extend(next);
    }
    for line in &lines {
        let ours = parse_args(line);
        let theirs = clap_reading(line);
        match (&ours, &theirs) {
            (Ok(a), Ok(b)) => assert!(same_command(a, b), "{line:?}: {a:?} vs {b:?}"),
            (Err(UsageError::Help), Err(Some(UsageError::Help))) => {}
            (Err(UsageError::Version), Err(Some(UsageError::Version))) => {}
            (Err(e), Err(None)) if *e != UsageError::Help && *e != UsageError::Version => {}
            _ => panic!("{line:?}: ours {ours:?}, clap {theirs:?}"),
        }
    }
}

#[test]
fn help_names_a_subcommand() {
    assert_eq!(parse_args(&args(&["dotman", "help", "add"])).unwrap_err(), UsageError::Help);
    assert_eq!(
        parse_args(&args(&["dotman", "help", "push"])).unwrap_err(),
        UsageError::UnknownSubcommand(2)
    );
    assert_eq!(
        parse_args(&args(&["dotman", "help", "add", "x"])).unwrap_err(),
        UsageError::UnknownSubcommand(3)
    );
    assert_eq!(parse_args(&args(&["dotman", "-hV"])).unwrap_err(), UsageError::Help);
    assert_eq!(parse_args(&args(&["dotman", "-Vh"])).unwrap_err(), UsageError::Version);
}
