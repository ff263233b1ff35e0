use std::path::Path;

use cvdbench::path_safe::{
    join_under_mount, normalize_relative, validate_relative, PathSafeError,
};

#[test]
fn accepts_simple_relative() {
    validate_relative("bench/file001.dat").unwrap();
    validate_relative("foo").unwrap();
    validate_relative("a/b/c.txt").unwrap();
}

#[test]
fn rejects_empty() {
    assert_eq!(validate_relative(""), Err(PathSafeError::Empty));
}

#[test]
fn rejects_absolute() {
    assert!(matches!(
        validate_relative("/etc/passwd"),
        Err(PathSafeError::MustBeRelative { .. })
    ));
}

#[test]
fn rejects_parent_dir() {
    assert!(matches!(
        validate_relative("../etc/passwd"),
        Err(PathSafeError::ForbiddenComponent { component, .. }) if component == ".."
    ));
    assert!(matches!(
        validate_relative("a/../b"),
        Err(PathSafeError::ForbiddenComponent { component, .. }) if component == ".."
    ));
}

#[test]
fn rejects_current_dir_component() {
    assert!(matches!(
        validate_relative("./a"),
        Err(PathSafeError::ForbiddenComponent { component, .. }) if component == "."
    ));
    assert!(matches!(
        validate_relative("a/./b"),
        Err(PathSafeError::ForbiddenComponent { component, .. }) if component == "."
    ));
}

#[test]
fn rejects_nul_byte() {
    assert!(matches!(
        validate_relative("a\0b"),
        Err(PathSafeError::NulByte { .. })
    ));
}

#[test]
fn join_concatenates_without_canonicalize() {
    let mount = "/mnt/examplefs";
    let joined = join_under_mount(mount, "bench/x").unwrap();
    assert_eq!(Path::new(&joined), Path::new("/mnt/examplefs/bench/x"));
}

#[test]
fn normalize_collapses_double_slashes() {
    assert_eq!(normalize_relative("a//b///c").unwrap(), "a/b/c");
}

#[test]
fn normalize_rejects_backslash() {
    assert!(matches!(
        normalize_relative("a\\b"),
        Err(PathSafeError::ForbiddenComponent { component, .. }) if component == "\\"
    ));
}

#[test]
fn normalize_strips_trailing_slash() {
    assert_eq!(normalize_relative("a/b/").unwrap(), "a/b");
}

#[test]
fn normalize_drops_a_leading_dot() {
    assert_eq!(normalize_relative("./foo").unwrap(), "foo");
    assert_eq!(normalize_relative("./a//b/").unwrap(), "a/b");
    assert_eq!(normalize_relative(".hidden/a").unwrap(), ".hidden/a");
}

#[test]
fn normalize_checks_what_follows_a_leading_dot() {
    assert_eq!(normalize_relative("./"), Err(PathSafeError::Empty));
    assert_eq!(
        normalize_relative(".//a"),
        Err(PathSafeError::MustBeRelative { path: ".//a".into() })
    );
    for (path, component) in [("././a", "."), ("./../a", ".."), ("a/./b", "."), (".", ".")] {
        assert_eq!(
            normalize_relative(path),
            Err(PathSafeError::ForbiddenComponent {
                path: path.into(),
                component: component.into(),
            })
        );
    }
}
