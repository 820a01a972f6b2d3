use dotman::commands::{
    add, ensure_link, format_invocation, link_matches, remove, restore, restore_step, status_counts,
    AddError, InstallState, RemoveError, RestoreOutcome, RestoreStep,
};
use dotman::copy::{finish_directory, plan_entry, plan_resolved, CopyAction, CopyError, EntryKind, OpenDirs};
use dotman::git::{
    commit_paths, committed_clean, git_add_arguments, git_commit_arguments, git_init_arguments,
    head_check_arguments, status_arguments, GitProbe,
};
use dotman::registry::{Entry, Registry};
use dotman::store::{init, repository_readme, require_store, store, Store, StoreError};

fn registry_with(destinations: &[&str]) -> Registry {
    let mut r = Registry::empty();
    for d in destinations {
        r.push_entry(Entry::new(None, format!("files/{d}"), d.to_string()));
    }
    r
}

#[test]
fn commit_message_uses_the_dotman_command() {
    let arguments = vec!["add".to_string(), "~/.zshrc".to_string()];
    assert_eq!(format_invocation(&arguments), "dotman add ~/.zshrc");
}

#[test]
fn commit_message_without_arguments_is_the_program_name() {
    assert_eq!(format_invocation(&Vec::new()), "dotman");
}

#[test]
fn init_creates_a_repository_and_rejects_existing_store() {
    let created = init(false).unwrap();
    assert_eq!(created.version, 1);
    assert!(created.entries.is_empty());
    assert!(init(true).is_err());
    assert_eq!(init(true).unwrap_err(), StoreError::AlreadyExists);
    assert!(repository_readme().starts_with("# Dotman repository"));
    assert!(repository_readme().contains("`dotman add PATH` imports a file or directory."));
}

#[test]
fn store_paths_are_below_home() {
    let s = store(Some("/home/u".to_string())).unwrap();
    assert_eq!(s.root, "/home/u/.config/dotman");
    assert_eq!(s.registry_path, "/home/u/.config/dotman/index.yaml");
    assert_eq!(s.files_dir(), "/home/u/.config/dotman/files");
    assert_eq!(s.readme_path(), "/home/u/.config/dotman/README.md");
    assert_eq!(s.managed_path("files/.zshrc"), "/home/u/.config/dotman/files/.zshrc");
    assert_eq!(s.install_path(".zshrc"), "/home/u/.zshrc");
    assert_eq!(store(None).err(), Some(StoreError::HomeNotSet));
    let s = Store::new("/home/u/".to_string());
    assert_eq!(s.root, "/home/u/.config/dotman");
    assert!(require_store(s, true).is_ok());
    let s = Store::new("/home/u".to_string());
    assert_eq!(require_store(s, false).err(), Some(StoreError::NotInitialized));
}

#[test]
fn add_places_a_path_below_files() {
    let r = registry_with(&[".vimrc"]);
    let placement = add(&r, "/home/u", "/home/u", ".zshrc", false).unwrap();
    assert_eq!(placement.destination, ".zshrc");
    assert_eq!(placement.source, "files/.zshrc");
    let placement = add(&r, "/home/u", "/", "home/u/.config/./nvim/", false).unwrap();
    assert_eq!(placement.destination, ".config/nvim");
    assert_eq!(placement.source, "files/.config/nvim");
}

#[test]
fn add_refusals() {
    let r = registry_with(&[".zshrc"]);
    assert_eq!(add(&r, "/home/u", "/home/u", "x", true).unwrap_err(), AddError::RootIsSymlink);
    assert_eq!(add(&r, "/home/u", "/tmp", "outside", false).unwrap_err(), AddError::OutsideHome);
    assert_eq!(
        add(&r, "/home/u", "/home/u", "./.zshrc", false).unwrap_err(),
        AddError::AlreadyRegistered
    );
}

#[test]
fn remove_finds_the_registered_entry() {
    let r = registry_with(&[".vimrc", ".zshrc"]);
    assert_eq!(remove(&r, "/home/u", "/home/u", ".zshrc"), Ok(1));
    assert_eq!(remove(&r, "/home/u", "/etc", "../home/u/.vimrc"), Ok(0));
    assert_eq!(remove(&r, "/home/u", "/home/u", ".bashrc"), Err(RemoveError::NotRegistered));
    assert_eq!(remove(&r, "/home/u", "/home/u", "/etc/hosts"), Err(RemoveError::OutsideHome));
}

#[test]
fn remove_after_add_restores_the_registry() {
    let mut r = registry_with(&[".vimrc"]);
    let placement = add(&r, "/home/u", "/home/u", ".zshrc", false).unwrap();
    r.push_entry(Entry::new(Some("shell".to_string()), placement.source, placement.destination));
    assert!(r.validate().is_ok());
    let position = remove(&r, "/home/u", "/home/u", ".zshrc").unwrap();
    assert_eq!(position, 1);
    let removed = r.remove_entry(position);
    assert_eq!(removed.name, Some("shell".to_string()));
    assert_eq!(r.entries.len(), 1);
    assert_eq!(r.entries[0].destination, ".vimrc");
    assert!(r.validate().is_ok());
}

#[test]
fn links_are_compared_by_components() {
    assert!(link_matches("/home/u/.config/dotman/files/.zshrc", "/home/u/.config/dotman/files/.zshrc"));
    assert!(link_matches("/home/u/x/../.config/dotman/files/.zshrc", "/home/u/.config/dotman/files//.zshrc/"));
    assert!(!link_matches("/home/u/other", "/home/u/.config/dotman/files/.zshrc"));
    assert!(ensure_link(Some("/r/files/a"), "/r/files/a").is_ok());
    assert!(ensure_link(None, "/r/files/a").is_err());
    assert!(ensure_link(Some("/r/files/b"), "/r/files/a").is_err());
}

#[test]
fn restore_steps_and_result() {
    let target = "/r/files/.zshrc";
    assert_eq!(restore_step(&InstallState::Symlink(target.to_string()), target), RestoreStep::Keep);
    assert_eq!(
        restore_step(&InstallState::Symlink("/elsewhere".to_string()), target),
        RestoreStep::DifferentLink
    );
    assert_eq!(restore_step(&InstallState::Present, target), RestoreStep::Occupied);
    assert_eq!(restore_step(&InstallState::Absent, target), RestoreStep::Link);
    assert_eq!(RestoreStep::Link.outcome(true), RestoreOutcome::Restored);
    assert_eq!(RestoreStep::Link.outcome(false), RestoreOutcome::Conflict);
    assert_eq!(RestoreStep::Occupied.outcome(true), RestoreOutcome::Conflict);
    assert_eq!(RestoreStep::Keep.outcome(false), RestoreOutcome::AlreadyLinked);
    assert_eq!(
        restore(&vec![RestoreOutcome::Restored, RestoreOutcome::AlreadyLinked]),
        Ok(())
    );
    assert_eq!(
        restore(&vec![RestoreOutcome::Conflict, RestoreOutcome::Restored, RestoreOutcome::Conflict]),
        Err(2)
    );
}

#[test]
fn status_counts_registered_healthy_and_clean() {
    let r = registry_with(&[".a", ".b", ".c"]);
    assert_eq!(status_counts(&r, &vec![true, false, true], &vec![false, false, true]), (3, 2, 1));
    assert_eq!(status_counts(&Registry::empty(), &vec![], &vec![]), (0, 0, 0));
}

#[test]
fn git_command_lines() {
    let paths = commit_paths("files/.zshrc");
    assert_eq!(paths, vec!["index.yaml", "files/.zshrc"]);
    assert_eq!(git_init_arguments("/r"), vec!["init", "/r"]);
    assert_eq!(
        git_add_arguments("/r", &paths),
        vec!["-C", "/r", "add", "-A", "--", "index.yaml", "files/.zshrc"]
    );
    assert_eq!(
        git_commit_arguments("/r", "dotman add ~/.zshrc", &paths),
        vec!["-C", "/r", "commit", "-m", "dotman add ~/.zshrc", "--", "index.yaml", "files/.zshrc"]
    );
    assert_eq!(
        head_check_arguments("/r", "files/.zshrc"),
        vec!["-C", "/r", "cat-file", "-e", "HEAD:files/.zshrc"]
    );
    assert_eq!(
        status_arguments("/r", "files/.zshrc"),
        vec!["-C", "/r", "status", "--porcelain", "--", "files/.zshrc"]
    );
    assert!(!committed_clean(&GitProbe::NotInHead));
    assert!(committed_clean(&GitProbe::InHead { status_ok: true, output_empty: true }));
    assert!(!committed_clean(&GitProbe::InHead { status_ok: true, output_empty: false }));
    assert!(!committed_clean(&GitProbe::InHead { status_ok: false, output_empty: true }));
}

#[test]
fn copy_decisions() {
    assert_eq!(plan_entry(EntryKind::Directory), Ok(CopyAction::EnterDirectory));
    assert_eq!(plan_entry(EntryKind::File), Ok(CopyAction::Resolve));
    assert_eq!(plan_entry(EntryKind::Symlink), Ok(CopyAction::Resolve));
    assert_eq!(plan_entry(EntryKind::Other), Err(CopyError::Unsupported));
    assert_eq!(plan_resolved(EntryKind::Directory), Ok(CopyAction::CopyResolved));
    assert_eq!(plan_resolved(EntryKind::File), Ok(CopyAction::CopyFile));
    assert_eq!(plan_resolved(EntryKind::Other), Err(CopyError::Unsupported));
    assert_eq!(finish_directory(false), Err(CopyError::EmptyDirectory));
    assert_eq!(finish_directory(true), Ok(()));
}

#[test]
fn open_directories_catch_cycles() {
    let mut open = OpenDirs::new();
    assert_eq!(open.enter("/home/u/cycle".to_string()), Ok(()));
    assert_eq!(open.enter("/home/u/cycle/sub".to_string()), Ok(()));
    assert_eq!(open.enter("/home/u/cycle".to_string()), Err(CopyError::Cycle));
    open.leave(&"/home/u/cycle/sub".to_string());
    assert_eq!(open.enter("/home/u/cycle/sub".to_string()), Ok(()));
    open.leave(&"/home/u/cycle/sub".to_string());
    open.leave(&"/home/u/cycle".to_string());
    assert_eq!(open.enter("/home/u/cycle".to_string()), Ok(()));
}

#[test]
fn a_link_to_the_managed_copy_is_its_own() {
    let s = Store::new("/home/u".to_string());
    let target = s.managed_path("files/.config/nvim");
    assert!(link_matches(&target, &target));
    assert_eq!(restore_step(&InstallState::Symlink(target.clone()), &target), RestoreStep::Keep);
    let odd = Store::new("/home/x/../u".to_string()).managed_path("files/.zshrc");
    assert!(!link_matches(&odd, &odd));
}
