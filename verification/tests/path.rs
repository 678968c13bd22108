use openshell::path::{normalize_path, paths_equal};
use std::path::Path;

#[test]
fn normalize_collapses_redundant_segments() {
    for (path, normal) in [
        ("/data//foo/", "/data/foo"),
        ("/a/./b", "/a/b"),
        ("/work/", "/work"),
        ("/", "/"),
        ("//", "/"),
        ("/.", "/"),
        ("./a", "a"),
        ("a/.", "a"),
        ("/a/../b", "/a/../b"),
        ("/...", "/..."),
        ("/.hidden/", "/.hidden"),
        ("/données//é", "/données/é"),
    ] {
        assert_eq!(normalize_path(path), normal, "{path:?}");
    }
}

#[test]
fn normalize_is_idempotent() {
    for path in ["/data//foo/", "/", "", ".", "./.", "a//b/./", "/../x", "é/./é"] {
        let once = normalize_path(path);
        assert_eq!(normalize_path(&once), once, "{path:?}");
    }
}

#[test]
fn path_equality_is_that_of_components() {
    let paths = [
        "/work", "/work/", "//work", "/work/.", "/work/..", "work", "./work", "/work/a", "/Work",
        "/", "//", "", ".", "./.", "a/./b", "a//b", "a/b/", "./a/b", "..", "../", "/./work", "a/..",
    ];
    for a in paths {
        for b in paths {
            assert_eq!(paths_equal(a, b), Path::new(a) == Path::new(b), "{a:?} {b:?}");
        }
    }
}

#[test]
fn an_absolute_path_equals_its_normal_form() {
    for path in ["/work//x/", "/./a", "/", "/a/../b"] {
        assert!(paths_equal(path, &normalize_path(path)), "{path:?}");
    }
}
