//! The order of the filesystem and Git work of `dotman add` and `dotman
//! remove`, and what each failure leads to. The caller performs each step
//! and reports whether it succeeded.

use vstd::prelude::*;

verus! {

/// The work of `dotman add` once the placement is decided.
#[derive(Debug, Clone, Copy, PartialEq, Eq, Structural)]
pub enum AddStep {
    /// Copy the path into the repository.
    CopyIn,
    /// Remove the original path.
    RemoveOriginal,
    /// Link the original path to the managed copy.
    Link,
    /// Write the registry with the new entry.
    Record,
    /// Commit the registry and the managed copy.
    Commit,
}

/// How `dotman add` fails after a step.
#[derive(Debug, Clone, Copy, PartialEq, Eq, Structural)]
pub enum AddFailure {
    /// Stop with the step's error.
    Plain,
    /// Delete the managed copy, then stop with the step's error.
    RolledBack,
    /// The link is in place but the registry was not written.
    NotRecorded,
    /// The path is managed but the commit failed.
    NotCommitted,
}

/// What `dotman add` does next.
#[derive(Debug, Clone, Copy, PartialEq, Eq, Structural)]
pub enum AddNext {
    Do(AddStep),
    Done,
    Failed(AddFailure),
}

/// The next move of `dotman add`, given the step last done (`None` at the
/// start) and whether it succeeded: the steps run in the order of `AddStep`;
/// when removing or linking the original fails, the managed copy is deleted
/// again.
pub open spec fn add_move(last: Option<AddStep>, ok: bool) -> AddNext {
    match last {
        None => AddNext::Do(AddStep::CopyIn),
        Some(AddStep::CopyIn) => if ok {
            AddNext::Do(AddStep::RemoveOriginal)
        } else {
            AddNext::Failed(AddFailure::Plain)
        },
        Some(AddStep::RemoveOriginal) => if ok {
            AddNext::Do(AddStep::Link)
        } else {
            AddNext::Failed(AddFailure::RolledBack)
        },
        Some(AddStep::Link) => if ok {
            AddNext::Do(AddStep::Record)
        } else {
            AddNext::Failed(AddFailure::RolledBack)
        },
        Some(AddStep::Record) => if ok {
            AddNext::Do(AddStep::Commit)
        } else {
            AddNext::Failed(AddFailure::NotRecorded)
        },
        Some(AddStep::Commit) => if ok {
            AddNext::Done
        } else {
            AddNext::Failed(AddFailure::NotCommitted)
        },
    }
}

/// The next move of `dotman add` (see `add_move`).
pub fn add_next(last: Option<AddStep>, ok: bool) -> (next: AddNext)
    ensures
        next == add_move(last, ok),
{
    match last {
        None => AddNext::Do(AddStep::CopyIn),
        Some(AddStep::CopyIn) => if ok {
            AddNext::Do(AddStep::RemoveOriginal)
        } else {
            AddNext::Failed(AddFailure::Plain)
        },
        Some(AddStep::RemoveOriginal) => if ok {
            AddNext::Do(AddStep::Link)
        } else {
            AddNext::Failed(AddFailure::RolledBack)
        },
        Some(AddStep::Link) => if ok {
            AddNext::Do(AddStep::Record)
        } else {
            AddNext::Failed(AddFailure::RolledBack)
        },
        Some(AddStep::Record) => if ok {
            AddNext::Do(AddStep::Commit)
        } else {
            AddNext::Failed(AddFailure::NotRecorded)
        },
        Some(AddStep::Commit) => if ok {
            AddNext::Done
        } else {
            AddNext::Failed(AddFailure::NotCommitted)
        },
    }
}

/// **`dotman add` records only what it linked.** The registry is written only
/// right after the original path was linked to its managed copy.
pub proof fn lemma_add_records_only_after_linking(last: Option<AddStep>, ok: bool)
    requires
        add_move(last, ok) == AddNext::Do(AddStep::Record),
    ensures
        last == Some(AddStep::Link) && ok,
{
}

/// **`dotman add` undoes its copy when it cannot link.** The managed copy is
/// deleted again exactly when removing or linking the original failed, that
/// is, after the copy was made and before anything was recorded.
pub proof fn lemma_add_rolls_back_only_after_copying(last: Option<AddStep>, ok: bool)
    ensures
        add_move(last, ok) == AddNext::Failed(AddFailure::RolledBack) <==> !ok && (last == Some(
            AddStep::RemoveOriginal,
        ) || last == Some(AddStep::Link)),
{
}

/// The work of `dotman remove` once the entry is chosen and its link
/// checked.
#[derive(Debug, Clone, Copy, PartialEq, Eq, Structural)]
pub enum RemoveStep {
    /// Copy the managed copy to a temporary path beside the installed one.
    CopyBack,
    /// Remove the link at the installed path.
    Unlink,
    /// Move the temporary copy to the installed path.
    PutBack,
    /// Delete the managed copy.
    DeleteManaged,
    /// Write the registry without the entry.
    Record,
    /// Commit the registry and the deleted copy.
    Commit,
}

/// How `dotman remove` fails after a step.
#[derive(Debug, Clone, Copy, PartialEq, Eq, Structural)]
pub enum RemoveFailure {
    /// Stop with the step's error.
    Plain,
    /// The link could not be removed.
    LinkKept,
    /// The regular copy could not be moved into place.
    NotPutBack,
    /// The path is unmanaged but the commit failed.
    NotCommitted,
}

/// What `dotman remove` does next.
#[derive(Debug, Clone, Copy, PartialEq, Eq, Structural)]
pub enum RemoveNext {
    Do(RemoveStep),
    Done,
    Failed(RemoveFailure),
}

/// The next move of `dotman remove`, given the step last done (`None` at
/// the start) and whether it succeeded: the steps run in the order of
/// `RemoveStep`, and the first failure stops the work.
pub open spec fn remove_move(last: Option<RemoveStep>, ok: bool) -> RemoveNext {
    match last {
        None => RemoveNext::Do(RemoveStep::CopyBack),
        Some(RemoveStep::CopyBack) => if ok {
            RemoveNext::Do(RemoveStep::Unlink)
        } else {
            RemoveNext::Failed(RemoveFailure::Plain)
        },
        Some(RemoveStep::Unlink) => if ok {
            RemoveNext::Do(RemoveStep::PutBack)
        } else {
            RemoveNext::Failed(RemoveFailure::LinkKept)
        },
        Some(RemoveStep::PutBack) => if ok {
            RemoveNext::Do(RemoveStep::DeleteManaged)
        } else {
            RemoveNext::Failed(RemoveFailure::NotPutBack)
        },
        Some(RemoveStep::DeleteManaged) => if ok {
            RemoveNext::Do(RemoveStep::Record)
        } else {
            RemoveNext::Failed(RemoveFailure::Plain)
        },
        Some(RemoveStep::Record) => if ok {
            RemoveNext::Do(RemoveStep::Commit)
        } else {
            RemoveNext::Failed(RemoveFailure::Plain)
        },
        Some(RemoveStep::Commit) => if ok {
            RemoveNext::Done
        } else {
            RemoveNext::Failed(RemoveFailure::NotCommitted)
        },
    }
}

/// The next move of `dotman remove` (see `remove_move`).
pub fn remove_next(last: Option<RemoveStep>, ok: bool) -> (next: RemoveNext)
    ensures
        next == remove_move(last, ok),
{
    match last {
        None => RemoveNext::Do(RemoveStep::CopyBack),
        Some(RemoveStep::CopyBack) => if ok {
            RemoveNext::Do(RemoveStep::Unlink)
        } else {
            RemoveNext::Failed(RemoveFailure::Plain)
        },
        Some(RemoveStep::Unlink) => if ok {
            RemoveNext::Do(RemoveStep::PutBack)
        } else {
            RemoveNext::Failed(RemoveFailure::LinkKept)
        },
        Some(RemoveStep::PutBack) => if ok {
            RemoveNext::Do(RemoveStep::DeleteManaged)
        } else {
            RemoveNext::Failed(RemoveFailure::NotPutBack)
        },
        Some(RemoveStep::DeleteManaged) => if ok {
            RemoveNext::Do(RemoveStep::Record)
        } else {
            RemoveNext::Failed(RemoveFailure::Plain)
        },
        Some(RemoveStep::Record) => if ok {
            RemoveNext::Do(RemoveStep::Commit)
        } else {
            RemoveNext::Failed(RemoveFailure::Plain)
        },
        Some(RemoveStep::Commit) => if ok {
            RemoveNext::Done
        } else {
            RemoveNext::Failed(RemoveFailure::NotCommitted)
        },
    }
}

/// **`dotman remove` restores a regular copy before it removes the managed
/// copy.** The managed copy is deleted only right after the regular copy was
/// moved into the installed path, which comes only after the link was
/// removed, which comes only after the copy was made.
pub proof fn lemma_regular_copy_before_deleting(last: Option<RemoveStep>, ok: bool)
    ensures
        remove_move(last, ok) == RemoveNext::Do(RemoveStep::DeleteManaged) ==> last == Some(
            RemoveStep::PutBack,
        ) && ok,
        remove_move(last, ok) == RemoveNext::Do(RemoveStep::PutBack) ==> last == Some(RemoveStep::Unlink)
            && ok,
        remove_move(last, ok) == RemoveNext::Do(RemoveStep::Unlink) ==> last == Some(RemoveStep::CopyBack)
            && ok,
{
}

} // verus!
