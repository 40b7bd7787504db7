use chorus_core::paths::{normalize_path, normalize_path_from};

#[test]
fn absolute_path_unchanged() {
    assert_eq!(normalize_path("/Users/foo/project"), "/Users/foo/project");
}

#[test]
fn resolves_dot_dot() {
    assert_eq!(
        normalize_path("/Users/foo/bar/../project"),
        "/Users/foo/project"
    );
}

#[test]
fn resolves_dot() {
    assert_eq!(
        normalize_path("/Users/foo/./project"),
        "/Users/foo/project"
    );
}

#[test]
fn parent_at_root_stays_at_root() {
    assert_eq!(normalize_path("/../../foo"), "/foo");
}

#[test]
fn trailing_slash_stripped() {
    assert_eq!(normalize_path("/a/b/"), "/a/b");
}

#[test]
fn repeated_separators_collapse() {
    assert_eq!(normalize_path("/a//b///c"), "/a/b/c");
}

#[test]
fn root_stays_root() {
    assert_eq!(normalize_path("/"), "/");
}

#[test]
fn relative_path_resolved_under_cwd() {
    assert_eq!(normalize_path_from("b/../c", "/home/user"), "/home/user/c");
    assert_eq!(normalize_path_from("x", "/srv"), "/srv/x");
}

#[test]
fn relative_parent_climbs_out_of_cwd() {
    assert_eq!(normalize_path_from("../x", "/a/b"), "/a/x");
    assert_eq!(normalize_path_from("../../../x", "/a"), "/x");
}

#[test]
fn absolute_path_ignores_cwd() {
    assert_eq!(normalize_path_from("/etc/hosts", "/home/user"), "/etc/hosts");
}

#[test]
fn normalize_is_idempotent_on_samples() {
    for p in ["/a/b/../c", "a//b/./", "/../..", "x/../../y", "/", ""] {
        let once = normalize_path(p);
        assert_eq!(normalize_path(&once), once, "renormalizing {:?}", p);
    }
}
