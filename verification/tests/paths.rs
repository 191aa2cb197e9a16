use std::path::Path;

use namplay::paths::{components_of, same_path};
use namplay::selection::{nav_enabled, sibling_path};

fn owned(v: &[&str]) -> Vec<String> {
    v.iter().map(|s| s.to_string()).collect()
}

#[test]
fn components_of_values() {
    assert_eq!(components_of("/x//a.nam"), owned(&["/", "x", "a.nam"]));
    assert_eq!(components_of("./a/./b/"), owned(&[".", "a", "b"]));
    assert_eq!(components_of("a/../b"), owned(&["a", "..", "b"]));
    assert_eq!(components_of("."), owned(&["."]));
    assert_eq!(components_of(""), Vec::<String>::new());
    assert_eq!(components_of("/"), owned(&["/"]));
}

#[test]
fn same_path_matches_std_path_equality() {
    let cases = [
        ("/x//a.nam", "/x/a.nam"),
        ("/x/./a.nam", "/x/a.nam"),
        ("/x/a/", "/x/a"),
        ("./a", "a"),
        ("a/.", "a"),
        ("//x", "/x"),
        ("a/..", "a"),
        (".", ""),
        ("x/a.nam", "/x/a.nam"),
        ("/x/a.NAM", "/x/a.nam"),
    ];
    for (a, b) in cases {
        assert_eq!(same_path(a, b), Path::new(a) == Path::new(b), "{a} vs {b}");
    }
}

#[test]
fn sibling_path_compares_by_components() {
    let files = owned(&["/x/a.nam", "/x/b.nam"]);
    assert_eq!(sibling_path(&files, "/x//a.nam", 1), Some("/x/b.nam".to_string()));
    assert_eq!(sibling_path(&files, "/x/./b.nam", 1), Some("/x/a.nam".to_string()));
    assert!(nav_enabled("/x//a.nam", &files));
    assert!(!nav_enabled("/y/a.nam", &files));
}
