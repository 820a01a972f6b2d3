//! The decisions of `dotman add`, `remove`, `restore` and `status`, and the
//! text recorded as a commit message. The caller performs the filesystem
//! work that each decision calls for and reports what it found.

use vstd::prelude::*;
use crate::path::{absolute_path, below, components, normalized};
use crate::registry::{files_prefix, first_position, lemma_first_position, registers, EntryView, Registry};

verus! {

/// Where `dotman add` puts a path: its destination below the home directory,
/// and its managed copy below the repository root (`files/` and the
/// destination).
#[derive(Debug)]
pub struct Placement {
    pub destination: String,
    pub source: String,
}

/// Why `dotman add` refuses a path.
#[derive(Debug, Clone, Copy, PartialEq, Eq, Structural)]
pub enum AddError {
    /// The path itself is a symbolic link.
    RootIsSymlink,
    /// The path is not below the home directory.
    OutsideHome,
    /// Some entry is already installed at the path.
    AlreadyRegistered,
}

/// Why `dotman remove` refuses a path.
#[derive(Debug, Clone, Copy, PartialEq, Eq, Structural)]
pub enum RemoveError {
    /// The path is not below the home directory.
    OutsideHome,
    /// No entry is installed at the path.
    NotRegistered,
}

/// The path at an installed location is not the link that `dotman` made.
#[derive(Debug, Clone, Copy, PartialEq, Eq)]
pub struct UnexpectedLink;

/// The destination that `dotman add` or `dotman remove` reads from `path`
/// (given relative to `cwd`): its absolute form below `home`.
pub open spec fn destination_of(home: Seq<char>, cwd: Seq<char>, path: Seq<char>) -> Option<Seq<char>> {
    below(home, absolute_path(cwd, path))
}

/// What `dotman add` decides for `path`, given whether the path is itself a
/// symbolic link: refused, or placed.
pub open spec fn add_decision(
    registry: Seq<EntryView>,
    home: Seq<char>,
    cwd: Seq<char>,
    path: Seq<char>,
    root_is_symlink: bool,
) -> Result<Seq<char>, AddError> {
    if root_is_symlink {
        Err(AddError::RootIsSymlink)
    } else {
        match destination_of(home, cwd, path) {
            None => Err(AddError::OutsideHome),
            Some(d) => if registers(registry, d) {
                Err(AddError::AlreadyRegistered)
            } else {
                Ok(d)
            },
        }
    }
}

/// Decides where `dotman add` places `path` (relative to `cwd`): refused when
/// the path is a symbolic link, is not below `home`, or is already
/// registered; otherwise the destination is the path below `home` and the
/// managed copy is `files/` followed by the destination.
pub fn add(registry: &Registry, home: &str, cwd: &str, path: &str, root_is_symlink: bool) -> (r:
    Result<Placement, AddError>)
    ensures
        r matches Err(e) ==> add_decision(registry.entries_view(), home@, cwd@, path@, root_is_symlink)
            == Err::<Seq<char>, AddError>(e),
        r matches Ok(p) ==> add_decision(registry.entries_view(), home@, cwd@, path@, root_is_symlink)
            == Ok::<Seq<char>, AddError>(p.destination@) && p.source@ == files_prefix()
            + p.destination@,
{
    if root_is_symlink {
        return Err(AddError::RootIsSymlink);
    }
    let destination = match crate::path::relative_destination(home, cwd, path) {
        None => {
            return Err(AddError::OutsideHome);
        },
        Some(d) => d,
    };
    proof {
        lemma_first_position(registry.entries_view(), destination@);
    }
    if registry.position_of(&destination).is_some() {
        return Err(AddError::AlreadyRegistered);
    }
    let mut source = String::new();
    proof {
        reveal_strlit("files/");
        assert("files/"@ =~= files_prefix());
    }
    source.append("files/");
    source.append(destination.as_str());
    Ok(Placement { destination, source })
}

/// What `dotman remove` decides for `path`: refused, or the position of the
/// entry to unmanage.
pub open spec fn remove_decision(
    registry: Seq<EntryView>,
    home: Seq<char>,
    cwd: Seq<char>,
    path: Seq<char>,
) -> Result<int, RemoveError> {
    match destination_of(home, cwd, path) {
        None => Err(RemoveError::OutsideHome),
        Some(d) => match first_position(registry, d) {
            None => Err(RemoveError::NotRegistered),
            Some(i) => Ok(i),
        },
    }
}

/// Decides which entry `dotman remove` unmanages for `path` (relative to
/// `cwd`): the first one installed at the path below `home`.
pub fn remove(registry: &Registry, home: &str, cwd: &str, path: &str) -> (r: Result<usize, RemoveError>)
    ensures
        r matches Ok(i) ==> remove_decision(registry.entries_view(), home@, cwd@, path@) == Ok::<
            int,
            RemoveError,
        >(i as int),
        r matches Err(e) ==> remove_decision(registry.entries_view(), home@, cwd@, path@) == Err::<
            int,
            RemoveError,
        >(e),
{
    let destination = match crate::path::relative_destination(home, cwd, path) {
        None => {
            return Err(RemoveError::OutsideHome);
        },
        Some(d) => d,
    };
    match registry.position_of(&destination) {
        Some(i) => Ok(i),
        None => Err(RemoveError::NotRegistered),
    }
}

/// Whether a link whose target reads `link` points at `target`: the link's
/// target, normalized, and `target` have the same components.
pub open spec fn points_at(link: Seq<char>, target: Seq<char>) -> bool {
    components(normalized(link)) == components(target)
}

/// Whether the link target `link` (as read from the link) points at
/// `target`, comparing components after normalizing the link target.
pub fn link_matches(link: &str, target: &str) -> (b: bool)
    ensures
        b == points_at(link@, target@),
{
    let l = crate::text::chars_of(link);
    let n = crate::path::normalized_chars(&l);
    let t = crate::text::chars_of(target);
    let a = crate::path::components_of(&n);
    let b = crate::path::components_of(&t);
    crate::path::same_components(&a, &b)
}

/// Checks that the installed path is the link that `dotman` made: `link` is
/// the link's target when the path is a symbolic link, `None` otherwise.
pub fn ensure_link(link: Option<&str>, target: &str) -> (r: Result<(), UnexpectedLink>)
    ensures
        r is Ok <==> (link matches Some(l) && points_at(l@, target@)),
{
    match link {
        Some(l) => if link_matches(l, target) {
            Ok(())
        } else {
            Err(UnexpectedLink)
        },
        None => Err(UnexpectedLink),
    }
}

/// What is found at an installed path during `dotman restore`.
pub enum InstallState {
    /// A symbolic link, with the target it reads.
    Symlink(String),
    /// Some other file or directory.
    Present,
    /// Nothing.
    Absent,
}

/// Whether a link may be created at a path: only where nothing exists, not
/// even a dangling symbolic link.
pub fn link_slot_free(exists: bool, is_symlink: bool) -> (free: bool)
    ensures
        free == (!exists && !is_symlink),
{
    !exists && !is_symlink
}

/// What `dotman restore` does about one entry.
#[derive(Debug, Clone, Copy, PartialEq, Eq, Structural)]
pub enum RestoreStep {
    /// The expected link is in place.
    Keep,
    /// A link to somewhere else is in place: a conflict.
    DifferentLink,
    /// A file or directory is in place: a conflict.
    Occupied,
    /// Nothing is in place: create the link.
    Link,
}

/// How one entry ended during `dotman restore`.
#[derive(Debug, Clone, Copy, PartialEq, Eq, Structural)]
pub enum RestoreOutcome {
    AlreadyLinked,
    Restored,
    Conflict,
}

/// Decides what `dotman restore` does about an entry whose installed path is
/// in `state` and whose managed copy is `target`.
pub fn restore_step(state: &InstallState, target: &str) -> (s: RestoreStep)
    ensures
        match state {
            InstallState::Symlink(l) => if points_at(l@, target@) {
                s == RestoreStep::Keep
            } else {
                s == RestoreStep::DifferentLink
            },
            InstallState::Present => s == RestoreStep::Occupied,
            InstallState::Absent => s == RestoreStep::Link,
        },
{
    match state {
        InstallState::Symlink(l) => if link_matches(l.as_str(), target) {
            RestoreStep::Keep
        } else {
            RestoreStep::DifferentLink
        },
        InstallState::Present => RestoreStep::Occupied,
        InstallState::Absent => RestoreStep::Link,
    }
}

impl RestoreStep {
    /// How the entry ends, given, for `Link`, whether the link was created.
    pub fn outcome(self, linked: bool) -> (o: RestoreOutcome)
        ensures
            self == RestoreStep::Keep ==> o == RestoreOutcome::AlreadyLinked,
            (self == RestoreStep::DifferentLink || self == RestoreStep::Occupied) ==> o
                == RestoreOutcome::Conflict,
            self == RestoreStep::Link ==> o == (if linked {
                RestoreOutcome::Restored
            } else {
                RestoreOutcome::Conflict
            }),
    {
        match self {
            RestoreStep::Keep => RestoreOutcome::AlreadyLinked,
            RestoreStep::DifferentLink => RestoreOutcome::Conflict,
            RestoreStep::Occupied => RestoreOutcome::Conflict,
            RestoreStep::Link => if linked {
                RestoreOutcome::Restored
            } else {
                RestoreOutcome::Conflict
            },
        }
    }
}

/// The number of conflicts among the outcomes.
pub open spec fn conflicts(outcomes: Seq<RestoreOutcome>) -> nat
    decreases outcomes.len(),
{
    if outcomes.len() == 0 {
        0
    } else {
        conflicts(outcomes.drop_last()) + if outcomes.last() == RestoreOutcome::Conflict {
            1nat
        } else {
            0nat
        }
    }
}

/// The number of `true` values.
pub open spec fn count_true(flags: Seq<bool>) -> nat
    decreases flags.len(),
{
    if flags.len() == 0 {
        0
    } else {
        count_true(flags.drop_last()) + if flags.last() {
            1nat
        } else {
            0nat
        }
    }
}

/// The result of `dotman restore` once every entry has an outcome: an error
/// carrying the number of conflicts when there is at least one.
pub fn restore(outcomes: &Vec<RestoreOutcome>) -> (r: Result<(), usize>)
    ensures
        r is Ok <==> conflicts(outcomes@) == 0,
        r matches Err(n) ==> n == conflicts(outcomes@),
{
    let mut count: usize = 0;
    let n = outcomes.len();
    for i in 0..n
        invariant
            n == outcomes@.len(),
            count == conflicts(outcomes@.take(i as int)),
            count <= i,
    {
        proof {
            assert(outcomes@.take(i + 1).drop_last() =~= outcomes@.take(i as int));
        }
        if outcomes[i] == RestoreOutcome::Conflict {
            count = count + 1;
        }
    }
    assert(outcomes@.take(n as int) =~= outcomes@);
    if count > 0 {
        Err(count)
    } else {
        Ok(())
    }
}

fn count_flags(flags: &Vec<bool>) -> (c: usize)
    ensures
        c == count_true(flags@),
{
    let mut count: usize = 0;
    let n = flags.len();
    for i in 0..n
        invariant
            n == flags@.len(),
            count == count_true(flags@.take(i as int)),
            count <= i,
    {
        proof {
            assert(flags@.take(i + 1).drop_last() =~= flags@.take(i as int));
        }
        if flags[i] {
            count = count + 1;
        }
    }
    assert(flags@.take(n as int) =~= flags@);
    count
}

/// The counts that `dotman status` reports: registered entries, entries
/// whose installed path is the expected link (`healthy[i]`), and entries
/// whose managed copy is committed and clean in Git (`clean[i]`).
pub fn status_counts(registry: &Registry, healthy: &Vec<bool>, clean: &Vec<bool>) -> (r: (
    usize,
    usize,
    usize,
))
    requires
        healthy@.len() == registry.entries@.len(),
        clean@.len() == registry.entries@.len(),
    ensures
        r.0 == registry.entries@.len(),
        r.1 == count_true(healthy@),
        r.2 == count_true(clean@),
{
    (registry.entries.len(), count_flags(healthy), count_flags(clean))
}

/// The command line as recorded in commit messages: `dotman` followed by
/// each argument after a space.
pub open spec fn invocation(arguments: Seq<Seq<char>>) -> Seq<char>
    decreases arguments.len(),
{
    if arguments.len() == 0 {
        dotman_word()
    } else {
        invocation(arguments.drop_last()) + seq![' '] + arguments.last()
    }
}

pub open spec fn dotman_word() -> Seq<char> {
    seq!['d', 'o', 't', 'm', 'a', 'n']
}

/// The command line as recorded in commit messages: `dotman`, then the
/// arguments, each after one space.
pub fn format_invocation(arguments: &Vec<String>) -> (s: String)
    ensures
        s@ == invocation(arguments@.map_values(|a: String| a@)),
{
    let ghost args = arguments@.map_values(|a: String| a@);
    let mut s = String::new();
    proof {
        reveal_strlit("dotman");
        assert("dotman"@ =~= dotman_word());
    }
    s.append("dotman");
    let n = arguments.len();
    for i in 0..n
        invariant
            n == arguments@.len(),
            args == arguments@.map_values(|a: String| a@),
            s@ == invocation(args.take(i as int)),
    {
        proof {
            assert(args.take(i + 1).drop_last() =~= args.take(i as int));
        }
        crate::text::push_char(&mut s, ' ');
        s.append(arguments[i].as_str());
    }
    assert(args.take(n as int) =~= args);
    s
}

} // verus!
