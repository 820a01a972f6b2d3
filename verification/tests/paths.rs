use std::path::{Component, Path, PathBuf};

use dotman::path::{absolute, join_path, normalize, relative_destination, validate_relative};

const SAMPLES: &[&str] = &[
    "", ".", "./", "..", "/", "//", "a", "a/", "a//b", "a/./b", "./a/b", "a/b/.", "/a/../b",
    "../a", "a/../..", "/..", "/a/b/../../..", ".config/dotman", "files/.zshrc", "/home/u/./x/",
    ".a", "a.", "...", "x/../y/./z//", "./.", "/./a",
];

fn std_normalize(path: &Path) -> PathBuf {
    let mut result = PathBuf::new();
    for component in path.components() {
        match component {
            Component::CurDir => {}
            Component::ParentDir => {
                result.pop();
            }
            other => result.push(other.as_os_str()),
        }
    }
    result
}

#[test]
fn normalize_matches_path_components() {
    for sample in SAMPLES {
        let expected = std_normalize(Path::new(sample));
        assert_eq!(normalize(sample), expected.to_string_lossy(), "normalizing {sample:?}");
    }
}

#[test]
fn normalize_examples() {
    assert_eq!(normalize("/home/u/../v/./w"), "/home/v/w");
    assert_eq!(normalize("a/../.."), "");
    assert_eq!(normalize("/.."), "/");
    assert_eq!(normalize("./a//b/"), "a/b");
}

#[test]
fn normalize_is_idempotent_on_samples() {
    for sample in SAMPLES {
        let once = normalize(sample);
        assert_eq!(normalize(&once), once);
    }
}

#[test]
fn join_matches_pathbuf_join() {
    for base in SAMPLES {
        for rel in SAMPLES {
            let expected = Path::new(base).join(rel);
            assert_eq!(join_path(base, rel), expected.to_string_lossy(), "{base:?} join {rel:?}");
        }
    }
}

#[test]
fn absolute_joins_relative_paths_to_the_working_directory() {
    assert_eq!(absolute("/home/u/work", "../.zshrc"), "/home/u/.zshrc");
    assert_eq!(absolute("/home/u", "/etc/./hosts"), "/etc/hosts");
    assert_eq!(absolute("/home/u", "."), "/home/u");
}

#[test]
fn relative_destination_matches_strip_prefix() {
    let homes = ["/home/u", "/home/u/", "/", "", "/home", "/home/u/.", "home/u", "."];
    let paths = [".zshrc", "/home/u/.zshrc", "/home/u", "/home/uv/x", "/etc/x", "../u/.config/nvim", "a/../b"];
    for home in homes {
        for path in paths {
            let abs = std_normalize(&Path::new("/home/u").join(path));
            let expected = abs.strip_prefix(home).ok().map(|p| p.to_string_lossy().to_string());
            assert_eq!(relative_destination(home, "/home/u", path), expected, "{home:?} {path:?}");
        }
    }
}

#[test]
fn relative_destination_examples() {
    assert_eq!(relative_destination("/home/u", "/home/u", ".zshrc"), Some(".zshrc".to_string()));
    assert_eq!(
        relative_destination("/home/u", "/tmp", "/home/u/.config/nvim"),
        Some(".config/nvim".to_string())
    );
    assert_eq!(relative_destination("/home/u", "/home/u", "../v/.zshrc"), None);
    assert_eq!(relative_destination("/home/u", "/home/u", "."), Some(String::new()));
}

#[test]
fn validate_relative_refuses_absolute_and_parent_paths() {
    for sample in SAMPLES {
        let parsed = Path::new(sample);
        let unsafe_path = parsed.is_absolute()
            || parsed.components().any(|c| matches!(c, Component::ParentDir));
        assert_eq!(validate_relative(sample).is_err(), unsafe_path, "{sample:?}");
    }
    assert!(validate_relative("files/../bad").is_err());
    assert!(validate_relative("/etc/passwd").is_err());
    assert!(validate_relative("files/.zshrc").is_ok());
}

#[test]
fn install_path_names_the_added_path() {
    let homes = ["/home/u", "/home/u/", "/", "home/u", "/home/./u"];
    let paths = [".zshrc", ".config/nvim/", "/home/u/a/../b", "./x/./y", "."];
    for home in homes {
        for path in paths {
            let cwd = "/home/u";
            if let Some(destination) = relative_destination(home, cwd, path) {
                let install = join_path(home, &destination);
                let abs = absolute(cwd, path);
                assert!(
                    Path::new(&install).components().eq(Path::new(&abs).components()),
                    "{home:?} {path:?}: {install:?} vs {abs:?}"
                );
            }
        }
    }
}

#[test]
fn link_matching_agrees_with_pathbuf_equality() {
    for link in SAMPLES {
        for target in SAMPLES {
            let expected = std_normalize(Path::new(link)) == PathBuf::from(target);
            assert_eq!(dotman::commands::link_matches(link, target), expected, "{link:?} {target:?}");
        }
    }
}
