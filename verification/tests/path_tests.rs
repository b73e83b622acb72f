use mac_wallpaper_tui::path::{
    extension_of, file_name_of, join_path, parent_of, path_ends_in_parent_dir, path_equals,
    path_starts_with,
};

#[test]
fn equal_paths_ignore_repeated_and_trailing_separators() {
    assert!(path_equals("/a/b/", "/a/b"));
    assert!(path_equals("/a//b", "/a/b"));
    assert!(path_equals("/a/./b", "/a/b"));
    assert!(!path_equals("/a/b", "a/b"));
    assert!(!path_equals("./a", "a"));
    assert!(!path_equals("/a/../b", "/b"));
}

#[test]
fn starts_with_compares_whole_components() {
    assert!(path_starts_with("/a/b/c", "/a/b"));
    assert!(path_starts_with("/a/b", "/a/b/"));
    assert!(!path_starts_with("/a/bc", "/a/b"));
    assert!(!path_starts_with("/a", "/a/b"));
    assert!(path_starts_with("anything", ""));
}

#[test]
fn file_name_is_the_last_normal_component() {
    assert_eq!(file_name_of("/a/b.jpg"), Some("b.jpg".to_string()));
    assert_eq!(file_name_of("/a/b/"), Some("b".to_string()));
    assert_eq!(file_name_of("foo.txt/."), Some("foo.txt".to_string()));
    assert_eq!(file_name_of("/a/.."), None);
    assert_eq!(file_name_of(".."), None);
    assert_eq!(file_name_of("/"), None);
    assert_eq!(file_name_of(""), None);
}

#[test]
fn parent_matches_std() {
    for p in [
        "/a/b", "/a", "/", "a", "/a/b/", "a//b", "./a", ".", "", "..", "a/..", "/a/./b/.", "./",
        "//a", "a/b/../c",
    ] {
        let expected = std::path::Path::new(p)
            .parent()
            .map(|q| q.to_str().unwrap().to_string());
        assert_eq!(parent_of(p), expected, "parent of {:?}", p);
    }
}

#[test]
fn file_name_and_extension_match_std() {
    for p in [
        "x.tar.gz", ".hidden", "a.", "noext", "/dir/photo.JPG", "..a", "/a/.b.c", "dir.d/",
        "/", "..", "a/..",
    ] {
        let path = std::path::Path::new(p);
        let name = path.file_name().map(|n| n.to_str().unwrap().to_string());
        let ext = path.extension().map(|n| n.to_str().unwrap().to_string());
        assert_eq!(file_name_of(p), name, "file name of {:?}", p);
        assert_eq!(extension_of(p), ext, "extension of {:?}", p);
    }
}

#[test]
fn extension_examples() {
    assert_eq!(extension_of("x.tar.gz"), Some("gz".to_string()));
    assert_eq!(extension_of(".hidden"), None);
    assert_eq!(extension_of("a."), Some("".to_string()));
    assert_eq!(extension_of("noext"), None);
}

#[test]
fn join_matches_std() {
    for (base, name) in [("/a", "b"), ("/a/", "b"), ("", "b"), ("/a", "/etc"), (".", "x"), ("/", "y")] {
        let expected = std::path::Path::new(base).join(name);
        assert_eq!(join_path(base, name), expected.to_str().unwrap(), "{:?} join {:?}", base, name);
    }
}

#[test]
fn components_match_std_equality() {
    let paths = ["/a/b", "/a/b/", "/a//b", "a/b", "./a/b", "/a/./b", "a/../b", ".", "", "/"];
    for a in paths {
        for b in paths {
            let expected = std::path::Path::new(a) == std::path::Path::new(b);
            assert_eq!(path_equals(a, b), expected, "{:?} == {:?}", a, b);
            let expected_start = std::path::Path::new(a).starts_with(b);
            assert_eq!(path_starts_with(a, b), expected_start, "{:?} starts with {:?}", a, b);
        }
    }
}

#[test]
fn parent_dir_endings() {
    assert!(path_ends_in_parent_dir(".."));
    assert!(path_ends_in_parent_dir("a/.."));
    assert!(path_ends_in_parent_dir("a/../"));
    assert!(!path_ends_in_parent_dir("a"));
    assert!(!path_ends_in_parent_dir("..a"));
}

#[test]
fn parent_of_a_joined_entry_is_the_directory() {
    for dir in ["/w", "/w/", "/w/./", "/", "", ".", "./a//", "a/b"] {
        let joined = join_path(dir, "x.jpg");
        let parent = parent_of(&joined).expect("a joined path has a parent");
        assert!(path_equals(&parent, dir), "parent of {:?} is {:?}", joined, parent);
    }
}
