//! Paths, held against std's.

use std::path::Path;

use pv::path::{base_name, path_starts_with};

const PATHS: [&str; 24] = [
    "",
    "/",
    "//",
    ".",
    "./",
    "./.",
    "..",
    "../",
    "a",
    "a/",
    "a/.",
    "./a",
    "a/..",
    "a/../b",
    "a/./b//",
    "a/b",
    "/a",
    "//a//b",
    "/a/b/.",
    "/.",
    ".a/b.c",
    "/usr/local/bin/pv",
    "/usr/local/bin",
    "/usr/local/binx",
];

#[test]
fn the_name_is_the_last_component() {
    for p in PATHS {
        let want = Path::new(p).file_name().map(|s| s.to_str().expect("text").to_string());
        assert_eq!(base_name(p), want, "{p:?}");
    }
    assert_eq!(base_name("/usr/bin/élan").as_deref(), Some("élan"));
}

#[test]
fn a_path_starts_with_whole_components() {
    for p in PATHS {
        for b in PATHS {
            assert_eq!(path_starts_with(p, b), Path::new(p).starts_with(b), "{p:?} under {b:?}");
        }
    }
    assert!(path_starts_with("/usr/local/bin/pv", "/usr/local/bin/"));
    assert!(!path_starts_with("/usr/local/binx", "/usr/local/bin"));
}
