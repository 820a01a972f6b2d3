use dotman::registry::{is_white_space_char, list_entries, Entry, Registry, RegistryError};

fn entry(name: Option<&str>, source: &str, destination: &str) -> Entry {
    Entry::new(name.map(|n| n.to_string()), source.to_string(), destination.to_string())
}

fn registry(version: u32, entries: Vec<Entry>) -> Registry {
    Registry { version, entries }
}

#[test]
fn white_space_matches_char_is_whitespace() {
    for c in (0u32..=0x10FFFF).filter_map(char::from_u32) {
        assert_eq!(is_white_space_char(c), c.is_whitespace(), "{:?}", c);
    }
}

#[test]
fn valid_registry_is_accepted() {
    let r = registry(
        1,
        vec![
            entry(Some("shell"), "files/.zshrc", ".zshrc"),
            entry(None, "files/.config/nvim", ".config/nvim"),
        ],
    );
    assert_eq!(r.validate(), Ok(()));
    assert_eq!(Registry::empty().validate(), Ok(()));
}

#[test]
fn unsupported_version_is_refused() {
    assert_eq!(registry(2, vec![]).validate(), Err(RegistryError::UnsupportedVersion(2)));
}

#[test]
fn unsafe_registry_paths_are_refused() {
    let r = registry(1, vec![entry(None, "files/../bad", ".bad")]);
    assert_eq!(r.validate(), Err(RegistryError::UnsafeSource(0)));
    let r = registry(1, vec![entry(None, "files/a", "/etc/passwd")]);
    assert_eq!(r.validate(), Err(RegistryError::UnsafeDestination(0)));
    let r = registry(1, vec![entry(None, "files/a", "../a")]);
    assert_eq!(r.validate(), Err(RegistryError::UnsafeDestination(0)));
}

#[test]
fn registry_rules_reject_each_bad_entry() {
    let r = registry(1, vec![entry(None, "other/file", ".bad")]);
    assert_eq!(r.validate(), Err(RegistryError::SourceOutsideFiles(0)));
    let r = registry(
        1,
        vec![entry(None, "files/a", ".a"), entry(None, "files/b", ".a")],
    );
    assert_eq!(r.validate(), Err(RegistryError::DuplicateDestination(1)));
    let r = registry(
        1,
        vec![entry(Some("same"), "files/a", ".a"), entry(Some("same"), "files/b", ".b")],
    );
    assert_eq!(r.validate(), Err(RegistryError::DuplicateName(1)));
    let r = registry(1, vec![entry(Some(" \t\u{3000}"), "files/a", ".a")]);
    assert_eq!(r.validate(), Err(RegistryError::BlankName(0)));
    let r = registry(1, vec![entry(Some(""), "files/a", ".a")]);
    assert_eq!(r.validate(), Err(RegistryError::BlankName(0)));
}

#[test]
fn the_first_broken_rule_is_reported() {
    let r = registry(
        1,
        vec![
            entry(None, "files/a", ".a"),
            entry(None, "files/b", ".a"),
            entry(None, "/abs", ".c"),
        ],
    );
    assert_eq!(r.validate(), Err(RegistryError::DuplicateDestination(1)));
    let r = registry(1, vec![entry(None, "files", "x")]);
    assert_eq!(r.validate(), Err(RegistryError::SourceOutsideFiles(0)));
}

#[test]
fn list_shows_each_entry_in_order() {
    let r = registry(
        1,
        vec![
            entry(Some("shell"), "files/.zshrc", ".zshrc"),
            entry(None, "files/.config/nvim", ".config/nvim"),
        ],
    );
    assert_eq!(
        list_entries(&r),
        vec!["[shell] .zshrc -> files/.zshrc", ".config/nvim -> files/.config/nvim"]
    );
    assert!(list_entries(&Registry::empty()).is_empty());
}

#[test]
fn push_then_remove_gives_the_registry_back() {
    let mut r = registry(1, vec![entry(None, "files/.a", ".a")]);
    r.push_entry(entry(Some("b"), "files/.b", ".b"));
    assert_eq!(r.entries.len(), 2);
    assert_eq!(r.position_of(&".b".to_string()), Some(1));
    let removed = r.remove_entry(1);
    assert_eq!(removed.destination, ".b");
    assert_eq!(r.entries.len(), 1);
    assert_eq!(r.entries[0].destination, ".a");
    assert_eq!(r.position_of(&".b".to_string()), None);
}
