//! The command-line grammar of `dotman`:
//!
//! ```text
//! dotman init | add PATH [--name NAME] | remove PATH | list | restore | status
//! dotman help [SUBCOMMAND] | -h | --help | -V | --version
//! ```
//!
//! A subcommand accepts `-h`/`--help`; `--` ends its options, and `--name`
//! takes its value from the next argument or after `=`. Errors and help
//! requests are reported as they are read, from left to right.

use vstd::prelude::*;
use crate::path::same_chars;

verus! {

/// A command that `dotman` runs.
#[derive(Debug)]
pub enum Command {
    Init,
    Add { path: String, name: Option<String> },
    Remove { path: String },
    List,
    Restore,
    Status,
}

pub enum CommandView {
    Init,
    Add { path: Seq<char>, name: Option<Seq<char>> },
    Remove { path: Seq<char> },
    List,
    Restore,
    Status,
}

impl View for Command {
    type V = CommandView;

    open spec fn view(&self) -> CommandView {
        match self {
            Command::Init => CommandView::Init,
            Command::Add { path, name } => CommandView::Add {
                path: path@,
                name: match name {
                    Some(n) => Some(n@),
                    None => None,
                },
            },
            Command::Remove { path } => CommandView::Remove { path: path@ },
            Command::List => CommandView::List,
            Command::Restore => CommandView::Restore,
            Command::Status => CommandView::Status,
        }
    }
}

/// Why a command line is not run; `Help` and `Version` are requests for the
/// help or version text. The `usize` is the index of the offending argument
/// (the program name is argument 0).
#[derive(Debug, Clone, Copy, PartialEq, Eq, Structural)]
pub enum UsageError {
    Help,
    Version,
    MissingSubcommand,
    UnknownSubcommand(usize),
    UnknownArgument(usize),
    UnexpectedArgument(usize),
    MissingValue,
    DuplicateName,
    EmptyPath,
    MissingPath,
}

/// The subcommands.
#[derive(Debug, Clone, Copy, PartialEq, Eq, Structural)]
pub enum Subcommand {
    Init,
    Add,
    Remove,
    List,
    Restore,
    Status,
}

pub open spec fn takes_path(sub: Subcommand) -> bool {
    sub == Subcommand::Add || sub == Subcommand::Remove
}

pub open spec fn takes_name(sub: Subcommand) -> bool {
    sub == Subcommand::Add
}

/// The subcommand that a word names; `help` is handled apart.
pub open spec fn subcommand_named(w: Seq<char>) -> Option<Subcommand> {
    if w == "init"@ {
        Some(Subcommand::Init)
    } else if w == "add"@ {
        Some(Subcommand::Add)
    } else if w == "remove"@ {
        Some(Subcommand::Remove)
    } else if w == "list"@ {
        Some(Subcommand::List)
    } else if w == "restore"@ {
        Some(Subcommand::Restore)
    } else if w == "status"@ {
        Some(Subcommand::Status)
    } else {
        None
    }
}

/// An argument that reads as an option: a `-` followed by something.
pub open spec fn flag_like(w: Seq<char>) -> bool {
    w.len() >= 2 && w[0] == '-'
}

/// A request for help: `--help`, or a cluster of short flags whose first
/// flag is `h` (such as `-h`), which is acted on as soon as it is read.
pub open spec fn help_flag(w: Seq<char>) -> bool {
    w == "--help"@ || (w.len() >= 2 && w[0] == '-' && w[1] == 'h')
}

/// A request for the version: `--version`, or a cluster of short flags whose
/// first flag is `V`.
pub open spec fn version_flag(w: Seq<char>) -> bool {
    w == "--version"@ || (w.len() >= 2 && w[0] == '-' && w[1] == 'V')
}

/// `--name=VALUE`, with its value.
pub open spec fn inline_name(w: Seq<char>) -> Option<Seq<char>> {
    if w.len() >= 7 && w.take(7) == "--name="@ {
        Some(w.skip(7))
    } else {
        None
    }
}

/// What is read of a subcommand's arguments so far.
pub struct ArgsRead {
    pub path: Option<Seq<char>>,
    pub name: Option<Seq<char>>,
    /// `--` was seen: every later argument is positional.
    pub literal: bool,
    /// `--name` was seen and waits for its value.
    pub pending_name: bool,
}

pub open spec fn nothing_read() -> ArgsRead {
    ArgsRead { path: None, name: None, literal: false, pending_name: false }
}

/// A positional argument: the path, if the subcommand takes one that is not
/// yet given; otherwise unexpected.
pub open spec fn read_positional(sub: Subcommand, st: ArgsRead, w: Seq<char>, idx: usize) -> Result<ArgsRead, UsageError> {
    if takes_path(sub) && st.path is None {
        if w.len() == 0 {
            Err(UsageError::EmptyPath)
        } else {
            Ok(ArgsRead { path: Some(w), ..st })
        }
    } else {
        Err(UsageError::UnexpectedArgument(idx))
    }
}

/// Reads the argument `w` (at index `idx`) of subcommand `sub`.
pub open spec fn read_arg(sub: Subcommand, st: ArgsRead, w: Seq<char>, idx: usize) -> Result<ArgsRead, UsageError> {
    if st.pending_name {
        if flag_like(w) {
            Err(UsageError::MissingValue)
        } else {
            Ok(ArgsRead { name: Some(w), pending_name: false, ..st })
        }
    } else if st.literal {
        read_positional(sub, st, w, idx)
    } else if w == "--"@ {
        Ok(ArgsRead { literal: true, ..st })
    } else if help_flag(w) {
        Err(UsageError::Help)
    } else if takes_name(sub) && w == "--name"@ {
        if st.name is Some {
            Err(UsageError::DuplicateName)
        } else {
            Ok(ArgsRead { pending_name: true, ..st })
        }
    } else if takes_name(sub) && inline_name(w) is Some {
        if st.name is Some {
            Err(UsageError::DuplicateName)
        } else {
            Ok(ArgsRead { name: inline_name(w), ..st })
        }
    } else if flag_like(w) {
        Err(UsageError::UnknownArgument(idx))
    } else {
        read_positional(sub, st, w, idx)
    }
}

/// Reads the arguments of a subcommand in order, stopping at the first error;
/// `first` is the index of the first of them.
pub open spec fn read_args(sub: Subcommand, ws: Seq<Seq<char>>, first: nat) -> Result<ArgsRead, UsageError>
    decreases ws.len(),
{
    if ws.len() == 0 {
        Ok(nothing_read())
    } else {
        match read_args(sub, ws.drop_last(), first) {
            Err(e) => Err(e),
            Ok(st) => read_arg(sub, st, ws.last(), (first + ws.len() - 1) as usize),
        }
    }
}

/// The command once all of a subcommand's arguments are read.
pub open spec fn finish(sub: Subcommand, st: ArgsRead) -> Result<CommandView, UsageError> {
    if st.pending_name {
        Err(UsageError::MissingValue)
    } else {
        match sub {
            Subcommand::Init => Ok(CommandView::Init),
            Subcommand::List => Ok(CommandView::List),
            Subcommand::Restore => Ok(CommandView::Restore),
            Subcommand::Status => Ok(CommandView::Status),
            Subcommand::Add => match st.path {
                Some(p) => Ok(CommandView::Add { path: p, name: st.name }),
                None => Err(UsageError::MissingPath),
            },
            Subcommand::Remove => match st.path {
                Some(p) => Ok(CommandView::Remove { path: p }),
                None => Err(UsageError::MissingPath),
            },
        }
    }
}

/// `dotman help [SUBCOMMAND]`: help, unless the argument after `help` names
/// no subcommand, or something follows it (no subcommand has subcommands of
/// its own).
pub open spec fn help_topic(args: Seq<Seq<char>>) -> Result<CommandView, UsageError> {
    if args.len() <= 2 {
        Err(UsageError::Help)
    } else if subcommand_named(args[2]) is None && args[2] != "help"@ {
        Err(UsageError::UnknownSubcommand(2))
    } else if args.len() == 3 {
        Err(UsageError::Help)
    } else {
        Err(UsageError::UnknownSubcommand(3))
    }
}

/// The meaning of a command line (argument 0 is the program name).
pub open spec fn command_line(args: Seq<Seq<char>>) -> Result<CommandView, UsageError> {
    if args.len() <= 1 {
        Err(UsageError::MissingSubcommand)
    } else {
        let w = args[1];
        if w == "help"@ {
            help_topic(args)
        } else if help_flag(w) {
            Err(UsageError::Help)
        } else if version_flag(w) {
            Err(UsageError::Version)
        } else if flag_like(w) {
            Err(UsageError::UnknownArgument(1))
        } else {
            match subcommand_named(w) {
                None => Err(UsageError::UnknownSubcommand(1)),
                Some(sub) => match read_args(sub, args.skip(2), 2) {
                    Err(e) => Err(e),
                    Ok(st) => finish(sub, st),
                },
            }
        }
    }
}

fn is_word(w: &Vec<char>, word: &str) -> (b: bool)
    ensures
        b == (w@ == word@),
{
    let v = crate::text::chars_of(word);
    same_chars(w, &v)
}

fn subcommand_of(w: &Vec<char>) -> (r: Option<Subcommand>)
    ensures
        r == subcommand_named(w@),
{
    if is_word(w, "init") {
        Some(Subcommand::Init)
    } else if is_word(w, "add") {
        Some(Subcommand::Add)
    } else if is_word(w, "remove") {
        Some(Subcommand::Remove)
    } else if is_word(w, "list") {
        Some(Subcommand::List)
    } else if is_word(w, "restore") {
        Some(Subcommand::Restore)
    } else if is_word(w, "status") {
        Some(Subcommand::Status)
    } else {
        None
    }
}

fn is_help_flag(w: &Vec<char>) -> (b: bool)
    ensures
        b == help_flag(w@),
{
    is_word(w, "--help") || (w.len() >= 2 && w[0] == '-' && w[1] == 'h')
}

fn is_version_flag(w: &Vec<char>) -> (b: bool)
    ensures
        b == version_flag(w@),
{
    is_word(w, "--version") || (w.len() >= 2 && w[0] == '-' && w[1] == 'V')
}

fn is_flag_like(w: &Vec<char>) -> (b: bool)
    ensures
        b == flag_like(w@),
{
    w.len() >= 2 && w[0] == '-'
}

fn inline_name_of(w: &Vec<char>) -> (r: Option<Vec<char>>)
    ensures
        r matches Some(v) ==> inline_name(w@) == Some(v@),
        r is None ==> inline_name(w@) is None,
{
    proof {
        reveal_strlit("--name=");
    }
    let prefix = crate::text::chars_of("--name=");
    if w.len() < 7 {
        return None;
    }
    for i in 0..7
        invariant
            w@.len() >= 7,
            prefix@ == "--name="@,
            prefix@.len() == 7,
            forall|j: int| 0 <= j < i ==> w@[j] == prefix@[j],
    {
        if w[i] != prefix[i] {
            assert(w@.take(7)[i as int] != "--name="@[i as int]);
            return None;
        }
    }
    assert(w@.take(7) =~= "--name="@);
    let mut v: Vec<char> = Vec::new();
    let n = w.len();
    for i in 7..n
        invariant
            n == w@.len(),
            7 <= n,
            v@ == w@.subrange(7, i as int),
    {
        v.push(w[i]);
        assert(v@ =~= w@.subrange(7, i + 1));
    }
    assert(v@ =~= w@.skip(7));
    Some(v)
}

/// The arguments read so far, as executable values.
struct Reader {
    path: Option<Vec<char>>,
    name: Option<Vec<char>>,
    literal: bool,
    pending_name: bool,
}

impl Reader {
    spec fn view_opt(o: Option<Vec<char>>) -> Option<Seq<char>> {
        match o {
            Some(v) => Some(v@),
            None => None,
        }
    }

    spec fn read(&self) -> ArgsRead {
        ArgsRead {
            path: Self::view_opt(self.path),
            name: Self::view_opt(self.name),
            literal: self.literal,
            pending_name: self.pending_name,
        }
    }
}

fn positional(sub: Subcommand, st: Reader, w: Vec<char>, idx: usize) -> (r: Result<Reader, UsageError>)
    ensures
        r matches Ok(n) ==> read_positional(sub, st.read(), w@, idx) == Ok::<ArgsRead, UsageError>(n.read()),
        r matches Err(e) ==> read_positional(sub, st.read(), w@, idx) == Err::<ArgsRead, UsageError>(e),
{
    if (sub == Subcommand::Add || sub == Subcommand::Remove) && st.path.is_none() {
        if w.len() == 0 {
            Err(UsageError::EmptyPath)
        } else {
            Ok(Reader { path: Some(w), ..st })
        }
    } else {
        Err(UsageError::UnexpectedArgument(idx))
    }
}

fn step(sub: Subcommand, st: Reader, w: Vec<char>, idx: usize) -> (r: Result<Reader, UsageError>)
    ensures
        r matches Ok(n) ==> read_arg(sub, st.read(), w@, idx) == Ok::<ArgsRead, UsageError>(n.read()),
        r matches Err(e) ==> read_arg(sub, st.read(), w@, idx) == Err::<ArgsRead, UsageError>(e),
{
    if st.pending_name {
        if is_flag_like(&w) {
            Err(UsageError::MissingValue)
        } else {
            Ok(Reader { name: Some(w), pending_name: false, ..st })
        }
    } else if st.literal {
        positional(sub, st, w, idx)
    } else if is_word(&w, "--") {
        Ok(Reader { literal: true, ..st })
    } else if is_help_flag(&w) {
        Err(UsageError::Help)
    } else if sub == Subcommand::Add && is_word(&w, "--name") {
        if st.name.is_some() {
            Err(UsageError::DuplicateName)
        } else {
            Ok(Reader { pending_name: true, ..st })
        }
    } else {
        let inline = if sub == Subcommand::Add { inline_name_of(&w) } else { None };
        match inline {
            Some(v) => {
                if st.name.is_some() {
                    Err(UsageError::DuplicateName)
                } else {
                    Ok(Reader { name: Some(v), ..st })
                }
            },
            None => {
                if is_flag_like(&w) {
                    Err(UsageError::UnknownArgument(idx))
                } else {
                    positional(sub, st, w, idx)
                }
            },
        }
    }
}

fn help_topic_of(args: &Vec<String>) -> (r: Result<Command, UsageError>)
    requires
        args@.len() >= 2,
    ensures
        r matches Err(e) && help_topic(args@.map_values(|a: String| a@)) == Err::<CommandView, UsageError>(e),
{
    let ghost ws = args@.map_values(|a: String| a@);
    if args.len() <= 2 {
        return Err(UsageError::Help);
    }
    let topic = crate::text::chars_of(args[2].as_str());
    assert(topic@ == ws[2]);
    if subcommand_of(&topic).is_none() && !is_word(&topic, "help") {
        Err(UsageError::UnknownSubcommand(2))
    } else if args.len() == 3 {
        Err(UsageError::Help)
    } else {
        Err(UsageError::UnknownSubcommand(3))
    }
}

/// Reads a command line (argument 0 is the program name) as `dotman`'s
/// grammar defines it.
pub fn parse_args(args: &Vec<String>) -> (r: Result<Command, UsageError>)
    ensures
        r matches Ok(c) ==> command_line(args@.map_values(|a: String| a@)) == Ok::<CommandView, UsageError>(c@),
        r matches Err(e) ==> command_line(args@.map_values(|a: String| a@)) == Err::<CommandView, UsageError>(e),
{
    let ghost ws = args@.map_values(|a: String| a@);
    if args.len() <= 1 {
        return Err(UsageError::MissingSubcommand);
    }
    let w = crate::text::chars_of(args[1].as_str());
    assert(w@ == ws[1]);
    if is_word(&w, "help") {
        return help_topic_of(args);
    }
    if is_help_flag(&w) {
        return Err(UsageError::Help);
    }
    if is_version_flag(&w) {
        return Err(UsageError::Version);
    }
    if is_flag_like(&w) {
        return Err(UsageError::UnknownArgument(1));
    }
    let sub = match subcommand_of(&w) {
        None => {
            return Err(UsageError::UnknownSubcommand(1));
        },
        Some(s) => s,
    };
    let mut st = Reader { path: None, name: None, literal: false, pending_name: false };
    let n = args.len();
    let ghost rest = ws.skip(2);
    for i in 2..n
        invariant
            n == args@.len(),
            ws == args@.map_values(|a: String| a@),
            rest == ws.skip(2),
            ws.len() >= 2,
            ws[1] != "help"@,
            !help_flag(ws[1]),
            !version_flag(ws[1]),
            !flag_like(ws[1]),
            subcommand_named(ws[1]) == Some(sub),
            read_args(sub, rest.take(i - 2), 2) == Ok::<ArgsRead, UsageError>(st.read()),
    {
        let a = crate::text::chars_of(args[i].as_str());
        proof {
            assert(rest.take(i - 1).drop_last() =~= rest.take(i - 2));
            assert(rest.take(i - 1).last() == ws[i as int]);
        }
        match step(sub, st, a, i) {
            Ok(next) => {
                st = next;
            },
            Err(e) => {
                proof {
                    assert(read_args(sub, rest.take(i - 1), 2) == Err::<ArgsRead, UsageError>(e));
                    lemma_read_args_error_stays(sub, rest, (i - 1) as int);
                }
                return Err(e);
            },
        }
    }
    proof {
        assert(rest.take(n - 2) =~= rest);
    }
    if st.pending_name {
        return Err(UsageError::MissingValue);
    }
    match sub {
        Subcommand::Init => Ok(Command::Init),
        Subcommand::List => Ok(Command::List),
        Subcommand::Restore => Ok(Command::Restore),
        Subcommand::Status => Ok(Command::Status),
        Subcommand::Add => match st.path {
            Some(p) => {
                let name = match st.name {
                    Some(v) => Some(crate::text::string_of(v.as_slice())),
                    None => None,
                };
                Ok(Command::Add { path: crate::text::string_of(p.as_slice()), name })
            },
            None => Err(UsageError::MissingPath),
        },
        Subcommand::Remove => match st.path {
            Some(p) => Ok(Command::Remove { path: crate::text::string_of(p.as_slice()) }),
            None => Err(UsageError::MissingPath),
        },
    }
}

/// An error while reading a prefix of the arguments is the error of reading
/// them all.
proof fn lemma_read_args_error_stays(sub: Subcommand, ws: Seq<Seq<char>>, k: int)
    requires
        0 <= k <= ws.len(),
        read_args(sub, ws.take(k), 2) is Err,
    ensures
        read_args(sub, ws, 2) == read_args(sub, ws.take(k), 2),
    decreases ws.len() - k,
{
    if k < ws.len() {
        assert(ws.take(k + 1).drop_last() =~= ws.take(k));
        lemma_read_args_error_stays(sub, ws, k + 1);
    } else {
        assert(ws.take(k) =~= ws);
    }
}

} // verus!
