//! The Git command lines that `dotman` runs, and how it reads their results.

use vstd::prelude::*;
use crate::store::INDEX;

verus! {

/// The text of each string, in order.
pub open spec fn words(v: Seq<String>) -> Seq<Seq<char>> {
    v.map_values(|a: String| a@)
}

fn owned(s: &str) -> (r: String)
    ensures
        r@ == s@,
{
    s.to_owned()
}

fn push_all(v: &mut Vec<String>, more: &Vec<String>)
    ensures
        words(final(v)@) == words(old(v)@) + words(more@),
{
    let n = more.len();
    for i in 0..n
        invariant
            n == more@.len(),
            words(v@) == words(old(v)@) + words(more@).take(i as int),
    {
        let ghost before = v@;
        v.push(more[i].clone());
        assert(words(v@) =~= words(before).push(more@[i as int]@));
        assert(words(more@).take(i + 1) =~= words(more@).take(i as int).push(more@[i as int]@));
    }
    assert(words(more@).take(n as int) =~= words(more@));
}

/// `git init ROOT`.
pub fn git_init_arguments(root: &str) -> (args: Vec<String>)
    ensures
        words(args@) == seq!["init"@, root@],
{
    let mut args: Vec<String> = Vec::new();
    args.push(owned("init"));
    args.push(owned(root));
    assert(words(args@) =~= seq!["init"@, root@]);
    args
}

/// The paths that a commit for the managed copy `source` records: the
/// registry file and the copy.
pub fn commit_paths(source: &str) -> (paths: Vec<String>)
    ensures
        words(paths@) == seq![INDEX@, source@],
{
    let mut paths: Vec<String> = Vec::new();
    paths.push(owned(INDEX));
    paths.push(owned(source));
    assert(words(paths@) =~= seq![INDEX@, source@]);
    paths
}

/// `git -C ROOT add -A -- PATHS...`: stages additions and deletions of the
/// given paths.
pub fn git_add_arguments(root: &str, paths: &Vec<String>) -> (args: Vec<String>)
    ensures
        words(args@) == seq!["-C"@, root@, "add"@, "-A"@, "--"@] + words(paths@),
{
    let mut args: Vec<String> = Vec::new();
    args.push(owned("-C"));
    args.push(owned(root));
    args.push(owned("add"));
    args.push(owned("-A"));
    args.push(owned("--"));
    assert(words(args@) =~= seq!["-C"@, root@, "add"@, "-A"@, "--"@]);
    push_all(&mut args, paths);
    args
}

/// `git -C ROOT commit -m MESSAGE -- PATHS...`: commits only the given
/// paths, with the command line as the message.
pub fn git_commit_arguments(root: &str, message: &str, paths: &Vec<String>) -> (args: Vec<String>)
    ensures
        words(args@) == seq!["-C"@, root@, "commit"@, "-m"@, message@, "--"@] + words(paths@),
{
    let mut args: Vec<String> = Vec::new();
    args.push(owned("-C"));
    args.push(owned(root));
    args.push(owned("commit"));
    args.push(owned("-m"));
    args.push(owned(message));
    args.push(owned("--"));
    assert(words(args@) =~= seq!["-C"@, root@, "commit"@, "-m"@, message@, "--"@]);
    push_all(&mut args, paths);
    args
}

/// `git -C ROOT cat-file -e HEAD:RELATIVE`: succeeds when the last commit
/// holds the path.
pub fn head_check_arguments(root: &str, relative: &str) -> (args: Vec<String>)
    ensures
        words(args@) == seq!["-C"@, root@, "cat-file"@, "-e"@, "HEAD:"@ + relative@],
{
    let mut object = owned("HEAD:");
    object.append(relative);
    let mut args: Vec<String> = Vec::new();
    args.push(owned("-C"));
    args.push(owned(root));
    args.push(owned("cat-file"));
    args.push(owned("-e"));
    args.push(object);
    assert(words(args@) =~= seq!["-C"@, root@, "cat-file"@, "-e"@, "HEAD:"@ + relative@]);
    args
}

/// `git -C ROOT status --porcelain -- RELATIVE`: prints nothing when the
/// path has no uncommitted change.
pub fn status_arguments(root: &str, relative: &str) -> (args: Vec<String>)
    ensures
        words(args@) == seq!["-C"@, root@, "status"@, "--porcelain"@, "--"@, relative@],
{
    let mut args: Vec<String> = Vec::new();
    args.push(owned("-C"));
    args.push(owned(root));
    args.push(owned("status"));
    args.push(owned("--porcelain"));
    args.push(owned("--"));
    args.push(owned(relative));
    assert(words(args@) =~= seq!["-C"@, root@, "status"@, "--porcelain"@, "--"@, relative@]);
    args
}

/// What Git reported about a managed copy.
pub enum GitProbe {
    /// The last commit does not hold the path (or the check could not run).
    NotInHead,
    /// The last commit holds the path; `git status` ran with this success
    /// and printed nothing exactly when `output_empty`.
    InHead { status_ok: bool, output_empty: bool },
}

/// Whether a managed copy is committed and clean: in the last commit, and
/// `git status` succeeded without printing anything for it.
pub fn committed_clean(probe: &GitProbe) -> (clean: bool)
    ensures
        clean == (*probe matches GitProbe::InHead { status_ok, output_empty } && status_ok
            && output_empty),
{
    match probe {
        GitProbe::NotInHead => false,
        GitProbe::InHead { status_ok, output_empty } => *status_ok && *output_empty,
    }
}

} // verus!
