//! Where the repository lives, and the decisions of `dotman init`.

use vstd::prelude::*;
use crate::path::joined;
use crate::registry::{Registry, REGISTRY_VERSION};

verus! {

/// The registry file, below the repository root.
pub const INDEX: &'static str = "index.yaml";

/// The directory of managed copies, below the repository root.
pub const FILES: &'static str = "files";

/// The repository's own README, below the repository root.
pub const README: &'static str = "README.md";

pub open spec fn config_text() -> Seq<char> {
    seq!['.', 'c', 'o', 'n', 'f', 'i', 'g']
}

pub open spec fn dotman_text() -> Seq<char> {
    seq!['d', 'o', 't', 'm', 'a', 'n']
}

pub open spec fn index_text() -> Seq<char> {
    seq!['i', 'n', 'd', 'e', 'x', '.', 'y', 'a', 'm', 'l']
}

pub open spec fn files_text() -> Seq<char> {
    seq!['f', 'i', 'l', 'e', 's']
}

pub open spec fn readme_text() -> Seq<char> {
    seq!['R', 'E', 'A', 'D', 'M', 'E', '.', 'm', 'd']
}

/// The repository root for a home directory: `home/.config/dotman`.
pub open spec fn root_of(home: Seq<char>) -> Seq<char> {
    joined(joined(home, config_text()), dotman_text())
}

/// The paths that `dotman` works with: the home directory, the repository
/// root below it, and the registry file in the root.
pub struct Store {
    pub home: String,
    pub root: String,
    pub registry_path: String,
}

/// Why the repository cannot be used.
#[derive(Debug, Clone, Copy, PartialEq, Eq, Structural)]
pub enum StoreError {
    /// `HOME` is not set.
    HomeNotSet,
    /// The registry file is missing: `dotman init` has not run.
    NotInitialized,
    /// `dotman init` found the repository root already there.
    AlreadyExists,
}


impl Store {
    /// The store for a home directory.
    pub fn new(home: String) -> (s: Store)
        ensures
            s.home@ == home@,
            s.root@ == root_of(home@),
            s.registry_path@ == joined(root_of(home@), index_text()),
    {
        proof {
            reveal_strlit(".config");
            reveal_strlit("dotman");
            reveal_strlit("index.yaml");
            assert(".config"@ =~= config_text());
            assert("dotman"@ =~= dotman_text());
            assert("index.yaml"@ =~= index_text());
        }
        let config = crate::path::join_path(home.as_str(), ".config");
        let root = crate::path::join_path(config.as_str(), "dotman");
        let registry_path = crate::path::join_path(root.as_str(), INDEX);
        Store { home, root, registry_path }
    }

    /// The directory of managed copies: `root/files`.
    pub fn files_dir(&self) -> (p: String)
        ensures
            p@ == joined(self.root@, files_text()),
    {
        proof {
            reveal_strlit("files");
            assert("files"@ =~= files_text());
        }
        crate::path::join_path(self.root.as_str(), FILES)
    }

    /// The repository README: `root/README.md`.
    pub fn readme_path(&self) -> (p: String)
        ensures
            p@ == joined(self.root@, readme_text()),
    {
        proof {
            reveal_strlit("README.md");
            assert("README.md"@ =~= readme_text());
        }
        crate::path::join_path(self.root.as_str(), README)
    }

    /// Where the managed copy `source` lives: `root.join(source)`.
    pub fn managed_path(&self, source: &str) -> (p: String)
        ensures
            p@ == joined(self.root@, source@),
    {
        crate::path::join_path(self.root.as_str(), source)
    }

    /// Where the destination is installed: `home.join(destination)`.
    pub fn install_path(&self, destination: &str) -> (p: String)
        ensures
            p@ == joined(self.home@, destination@),
    {
        crate::path::join_path(self.home.as_str(), destination)
    }
}

/// The store for the value of `HOME`; an error when it is not set.
pub fn store(home: Option<String>) -> (r: Result<Store, StoreError>)
    ensures
        home is None ==> r == Err::<Store, StoreError>(StoreError::HomeNotSet),
        home matches Some(h) ==> r matches Ok(s) && s.home@ == h@ && s.root@ == root_of(h@)
            && s.registry_path@ == joined(root_of(h@), index_text()),
{
    match home {
        Some(h) => Ok(Store::new(h)),
        None => Err(StoreError::HomeNotSet),
    }
}

/// The store, if its registry file exists; `NotInitialized` otherwise.
pub fn require_store(store: Store, registry_is_file: bool) -> (r: Result<Store, StoreError>)
    ensures
        registry_is_file ==> r == Ok::<Store, StoreError>(store),
        !registry_is_file ==> r == Err::<Store, StoreError>(StoreError::NotInitialized),
{
    if registry_is_file {
        Ok(store)
    } else {
        Err(StoreError::NotInitialized)
    }
}

/// What `dotman init` writes as `index.yaml`: the empty version 1 registry;
/// refused when the repository root already exists.
pub fn init(root_exists: bool) -> (r: Result<Registry, StoreError>)
    ensures
        root_exists <==> r is Err,
        r matches Err(e) ==> e == StoreError::AlreadyExists,
        r matches Ok(reg) ==> reg.version == REGISTRY_VERSION && reg.entries@.len() == 0,
{
    if root_exists {
        Err(StoreError::AlreadyExists)
    } else {
        Ok(Registry::empty())
    }
}

/// The README that `dotman init` writes into the repository.
pub const REPOSITORY_README: &'static str = "# Dotman repository

This repository is managed by dotman.

Dotman stores managed copies below `files/` and records each installation
mapping in `index.yaml`. It creates symbolic links from installed paths to
those managed copies.

## Basic commands

- `dotman init` creates this repository.
- `dotman add PATH` imports a file or directory.
- `dotman list` shows registered mappings.
- `dotman status` reports link and Git status.
- `dotman restore` recreates registered symbolic links.
- `dotman remove PATH` restores a regular copy and removes management.

Dotman runs `git init` during setup. It commits changes from `add` and
`remove`. Add a remote and push with your preferred Git commands.
";

/// The README that `dotman init` writes into the repository.
pub fn repository_readme() -> (text: &'static str)
    ensures
        text@ == REPOSITORY_README@,
{
    REPOSITORY_README
}

} // verus!
