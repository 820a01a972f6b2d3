//! The decisions of copying a file or directory tree into the repository:
//! which entries are copied, followed or refused, and how a directory cycle
//! through symbolic links is caught.

use vstd::prelude::*;

verus! {

/// Why a tree cannot be copied.
#[derive(Debug, Clone, Copy, PartialEq, Eq, Structural)]
pub enum CopyError {
    /// A directory is reached again below itself, through a symbolic link.
    Cycle,
    /// A directory has no entries.
    EmptyDirectory,
    /// An entry is neither a directory, a file nor a symbolic link to one.
    Unsupported,
}

/// What an entry is, as its metadata reports it.
#[derive(Debug, Clone, Copy, PartialEq, Eq, Structural)]
pub enum EntryKind {
    Directory,
    File,
    Symlink,
    Other,
}

/// What the copy does with an entry.
#[derive(Debug, Clone, Copy, PartialEq, Eq, Structural)]
pub enum CopyAction {
    /// Enter the directory and copy each of its entries.
    EnterDirectory,
    /// Resolve the entry to its canonical path and look at what that is.
    Resolve,
    /// Copy the contents of the resolved file.
    CopyFile,
    /// Copy the resolved path, a directory, as if it had been given.
    CopyResolved,
}

/// What to do with an entry, by the kind that its own metadata (not
/// following links) reports.
pub fn plan_entry(kind: EntryKind) -> (r: Result<CopyAction, CopyError>)
    ensures
        kind == EntryKind::Directory ==> r == Ok::<CopyAction, CopyError>(CopyAction::EnterDirectory),
        (kind == EntryKind::File || kind == EntryKind::Symlink) ==> r == Ok::<CopyAction, CopyError>(
            CopyAction::Resolve,
        ),
        kind == EntryKind::Other ==> r == Err::<CopyAction, CopyError>(CopyError::Unsupported),
{
    match kind {
        EntryKind::Directory => Ok(CopyAction::EnterDirectory),
        EntryKind::File => Ok(CopyAction::Resolve),
        EntryKind::Symlink => Ok(CopyAction::Resolve),
        EntryKind::Other => Err(CopyError::Unsupported),
    }
}

/// What to do with a resolved entry, by the kind of its canonical path.
pub fn plan_resolved(kind: EntryKind) -> (r: Result<CopyAction, CopyError>)
    ensures
        kind == EntryKind::Directory ==> r == Ok::<CopyAction, CopyError>(CopyAction::CopyResolved),
        kind == EntryKind::File ==> r == Ok::<CopyAction, CopyError>(CopyAction::CopyFile),
        (kind == EntryKind::Symlink || kind == EntryKind::Other) ==> r == Err::<CopyAction, CopyError>(
            CopyError::Unsupported,
        ),
{
    match kind {
        EntryKind::Directory => Ok(CopyAction::CopyResolved),
        EntryKind::File => Ok(CopyAction::CopyFile),
        _ => Err(CopyError::Unsupported),
    }
}

/// The end of a directory's copy: refused when it had no entry.
pub fn finish_directory(has_entry: bool) -> (r: Result<(), CopyError>)
    ensures
        has_entry <==> r is Ok,
        r matches Err(e) ==> e == CopyError::EmptyDirectory,
{
    if has_entry {
        Ok(())
    } else {
        Err(CopyError::EmptyDirectory)
    }
}

/// The canonical paths of the directories being copied, from the top of the
/// tree down to the current one. Canonical paths are absolute and free of
/// `.`, `..` and links, so two name the same directory exactly when their
/// texts are equal.
pub struct OpenDirs {
    dirs: Vec<String>,
}

impl View for OpenDirs {
    type V = Set<Seq<char>>;

    closed spec fn view(&self) -> Set<Seq<char>> {
        texts_of(self.dirs@).to_set()
    }
}

pub open spec fn texts_of(v: Seq<String>) -> Seq<Seq<char>> {
    v.map_values(|s: String| s@)
}

impl OpenDirs {
    /// No directory is listed twice.
    pub closed spec fn wf(&self) -> bool {
        texts_of(self.dirs@).no_duplicates()
    }

    /// No directory is open yet.
    pub fn new() -> (d: OpenDirs)
        ensures
            d.wf(),
            d@ == Set::<Seq<char>>::empty(),
    {
        let d = OpenDirs { dirs: Vec::new() };
        assert(texts_of(d.dirs@) =~= Seq::<Seq<char>>::empty());
        d
    }

    fn find(&self, dir: &String) -> (r: Option<usize>)
        ensures
            r matches Some(i) ==> i < self.dirs@.len() && self.dirs@[i as int]@ == dir@,
            r is None ==> !self@.contains(dir@),
    {
        let n = self.dirs.len();
        for i in 0..n
            invariant
                n == self.dirs@.len(),
                forall|j: int| 0 <= j < i ==> #[trigger] self.dirs@[j]@ != dir@,
        {
            if self.dirs[i].eq(dir) {
                return Some(i);
            }
        }
        proof {
            if self@.contains(dir@) {
                let j = texts_of(self.dirs@).index_of(dir@);
                assert(texts_of(self.dirs@)[j] == dir@);
            }
        }
        None
    }

    /// Opens the directory `dir` (a canonical path); a cycle when it is
    /// already open, in which case nothing changes.
    pub fn enter(&mut self, dir: String) -> (r: Result<(), CopyError>)
        requires
            old(self).wf(),
        ensures
            final(self).wf(),
            r is Err <==> old(self)@.contains(dir@),
            r matches Err(e) ==> e == CopyError::Cycle && final(self)@ == old(self)@,
            r is Ok ==> final(self)@ == old(self)@.insert(dir@),
    {
        match self.find(&dir) {
            Some(i) => {
                assert(texts_of(self.dirs@)[i as int] == dir@);
                assert(texts_of(self.dirs@).contains(dir@));
                return Err(CopyError::Cycle);
            },
            None => {},
        }
        let ghost before = texts_of(self.dirs@);
        let ghost text = dir@;
        self.dirs.push(dir);
        proof {
            assert(texts_of(self.dirs@) =~= before.push(text));
            assert(texts_of(self.dirs@).no_duplicates()) by {
                assert forall|i: int, j: int|
                    0 <= i < texts_of(self.dirs@).len() && 0 <= j < texts_of(self.dirs@).len() && i
                        != j implies texts_of(self.dirs@)[i] != texts_of(self.dirs@)[j] by {
                    if i < before.len() && j < before.len() {
                    } else if i < before.len() {
                        assert(before.contains(before[i]));
                    } else if j < before.len() {
                        assert(before.contains(before[j]));
                    }
                }
            }
            before.lemma_push_to_set_commute(text);
        }
        Ok(())
    }

    /// Closes the directory `dir`.
    pub fn leave(&mut self, dir: &String)
        requires
            old(self).wf(),
        ensures
            final(self).wf(),
            final(self)@ == old(self)@.remove(dir@),
    {
        match self.find(dir) {
            None => {
                assert(self@ =~= old(self)@.remove(dir@));
            },
            Some(i) => {
                let ghost before = texts_of(self.dirs@);
                self.dirs.remove(i);
                proof {
                    assert(texts_of(self.dirs@) =~= before.remove(i as int));
                    assert(texts_of(self.dirs@).no_duplicates()) by {
                        assert forall|a: int, b: int|
                            0 <= a < texts_of(self.dirs@).len() && 0 <= b < texts_of(self.dirs@).len()
                                && a != b implies texts_of(self.dirs@)[a] != texts_of(self.dirs@)[b] by {
                            let a2 = if a < i { a } else { a + 1 };
                            let b2 = if b < i { b } else { b + 1 };
                            assert(texts_of(self.dirs@)[a] == before[a2]);
                            assert(texts_of(self.dirs@)[b] == before[b2]);
                        }
                    }
                    let after = texts_of(self.dirs@);
                    assert(before[i as int] == dir@);
                    assert forall|x: Seq<char>| #[trigger] after.contains(x) <==> (before.contains(x) && x != dir@) by {
                        if after.contains(x) {
                            let k = after.index_of(x);
                            let k2 = if k < i { k } else { k + 1 };
                            assert(before[k2] == x);
                            assert(k2 != i);
                            assert(before.contains(x));
                        }
                        if before.contains(x) && x != dir@ {
                            let k = before.index_of(x);
                            assert(k != i);
                            let k2 = if k < i { k } else { k - 1 };
                            assert(after[k2] == x);
                            assert(after.contains(x));
                        }
                    }
                    assert(texts_of(self.dirs@).to_set() =~= before.to_set().remove(dir@));
                }
            },
        }
    }
}

} // verus!
