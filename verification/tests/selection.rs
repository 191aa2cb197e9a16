use namplay::selection::{
    buffer_size_at, buffer_size_index, nav_enabled, optional_path, selected_index, sibling_path,
};

fn owned(v: &[&str]) -> Vec<String> {
    v.iter().map(|s| s.to_string()).collect()
}

#[test]
fn selected_index_offsets_by_none_row() {
    let devices = owned(&["alsa", "system", "usb"]);
    assert_eq!(selected_index("", &devices), 0);
    assert_eq!(selected_index("alsa", &devices), 1);
    assert_eq!(selected_index("usb", &devices), 3);
    assert_eq!(selected_index("missing", &devices), 0);
    assert_eq!(selected_index("x", &Vec::new()), 0);
}

#[test]
fn selected_index_picks_first_duplicate() {
    let devices = owned(&["a", "b", "a"]);
    assert_eq!(selected_index("a", &devices), 1);
}

#[test]
fn buffer_size_index_values() {
    assert_eq!(buffer_size_index(16), 0);
    assert_eq!(buffer_size_index(192), 4);
    assert_eq!(buffer_size_index(256), 5);
    assert_eq!(buffer_size_index(512), 9);
    assert_eq!(buffer_size_index(1024), 5);
    assert_eq!(buffer_size_index(0), 5);
    assert_eq!(buffer_size_index(-16), 5);
}

#[test]
fn buffer_size_at_values() {
    assert_eq!(buffer_size_at(0), Some(16));
    assert_eq!(buffer_size_at(9), Some(512));
    assert_eq!(buffer_size_at(10), None);
    for row in 0..10 {
        assert_eq!(buffer_size_index(buffer_size_at(row).unwrap() as i32), row);
    }
}

#[test]
fn optional_path_values() {
    assert_eq!(optional_path(""), None);
    assert_eq!(optional_path("/a/b.nam"), Some("/a/b.nam".to_string()));
}

#[test]
fn sibling_path_wraps_around() {
    let files = owned(&["/d/a.nam", "/d/b.nam", "/d/c.nam"]);
    assert_eq!(sibling_path(&files, "/d/b.nam", 1), Some("/d/c.nam".to_string()));
    assert_eq!(sibling_path(&files, "/d/c.nam", 1), Some("/d/a.nam".to_string()));
    assert_eq!(sibling_path(&files, "/d/a.nam", -1), Some("/d/c.nam".to_string()));
    assert_eq!(sibling_path(&files, "/d/a.nam", 4), Some("/d/b.nam".to_string()));
    assert_eq!(sibling_path(&files, "/d/a.nam", -4), Some("/d/c.nam".to_string()));
    assert_eq!(sibling_path(&files, "/d/a.nam", isize::MIN), Some("/d/b.nam".to_string()));
    assert_eq!(sibling_path(&files, "/d/a.nam", isize::MAX), Some("/d/b.nam".to_string()));
}

#[test]
fn sibling_path_round_trip() {
    let files = owned(&["1", "2", "3", "4"]);
    for f in &files {
        let next = sibling_path(&files, f, 1).unwrap();
        assert_eq!(sibling_path(&files, &next, -1).unwrap(), *f);
    }
}

#[test]
fn sibling_path_missing_or_empty() {
    let files = owned(&["/d/a.nam"]);
    assert_eq!(sibling_path(&files, "/d/z.nam", 1), None);
    assert_eq!(sibling_path(&Vec::new(), "/d/a.nam", 1), None);
    assert_eq!(sibling_path(&files, "/d/a.nam", 1), Some("/d/a.nam".to_string()));
}

#[test]
fn nav_enabled_values() {
    let files = owned(&["/d/a.nam", "/d/b.nam"]);
    assert!(nav_enabled("/d/a.nam", &files));
    assert!(!nav_enabled("", &files));
    assert!(!nav_enabled("/d/z.nam", &files));
    assert!(!nav_enabled("/d/a.nam", &owned(&["/d/a.nam"])));
}

#[test]
fn sibling_files_filters_and_sorts() {
    let entries = owned(&[
        "/d/b.NAM",
        "/d/a.nam",
        "/d/.nam",
        "/d/c.wav",
        "/d/x.tar.nam",
        "/d/noext",
        "/d/e.nam.bak",
    ]);
    assert_eq!(
        namplay::selection::sibling_files(&entries, "nam"),
        owned(&["/d/a.nam", "/d/b.NAM", "/d/x.tar.nam"])
    );
}

#[test]
fn sibling_files_looks_at_file_name_only() {
    let entries = owned(&["/d.nam/file", "./z.wav", "./a.WAV", "rel.wav"]);
    assert!(namplay::selection::sibling_files(&entries, "nam").is_empty());
    assert_eq!(
        namplay::selection::sibling_files(&entries, "wav"),
        owned(&["./a.WAV", "./z.wav", "rel.wav"])
    );
}

#[test]
fn sibling_files_keeps_duplicates() {
    let entries = owned(&["/d/b.nam", "/d/a.nam", "/d/b.nam"]);
    assert_eq!(
        namplay::selection::sibling_files(&entries, "nam"),
        owned(&["/d/a.nam", "/d/b.nam", "/d/b.nam"])
    );
}
