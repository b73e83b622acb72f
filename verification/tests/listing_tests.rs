use mac_wallpaper_tui::config::Config;
use mac_wallpaper_tui::listing::{list_directory, name_less_or_equal, sorted_names, DirEntry};

fn entry(name: &str, is_dir: bool) -> DirEntry {
    DirEntry { name: name.to_string(), is_dir }
}

fn sample() -> Option<Vec<DirEntry>> {
    Some(vec![
        entry("zebra.png", false),
        entry("Nature", true),
        entry("notes.txt", false),
        entry("abstract", true),
        entry("Beach.JPG", false),
        entry("dynamic.madesktop", false),
        entry("apple.heic", false),
    ])
}

#[test]
fn root_listing_has_no_parent_entry() {
    let c = Config::with_root("/w".to_string());
    let items = list_directory("/w", "/w", &c, &sample());
    assert_eq!(
        items,
        vec![
            "/w/Nature",
            "/w/abstract",
            "/w/Beach.JPG",
            "/w/apple.heic",
            "/w/dynamic.madesktop",
            "/w/zebra.png",
        ]
    );
}

#[test]
fn sub_directory_listing_starts_with_parent_entry() {
    let c = Config::with_root("/w".to_string());
    let items = list_directory("/w/Nature", "/w", &c, &Some(vec![entry("b.png", false), entry("a.jpg", false)]));
    assert_eq!(items, vec!["..", "/w/Nature/a.jpg", "/w/Nature/b.png"]);
}

#[test]
fn root_compared_as_a_path() {
    let c = Config::with_root("/w/".to_string());
    let items = list_directory("/w", "/w/", &c, &Some(vec![]));
    assert!(items.is_empty());
}

#[test]
fn unreadable_directory_shows_only_parent_entry() {
    let c = Config::with_root("/w".to_string());
    assert_eq!(list_directory("/w/x", "/w", &c, &None), vec![".."]);
    assert!(list_directory("/w", "/w", &c, &None).is_empty());
}

#[test]
fn names_sort_by_code_point() {
    assert!(name_less_or_equal("B", "a"));
    assert!(!name_less_or_equal("a", "B"));
    assert!(name_less_or_equal("ab", "abc"));
    assert!(!name_less_or_equal("abc", "ab"));
    assert!(name_less_or_equal("", ""));
    let sorted = sorted_names(vec!["b".to_string(), "a".to_string(), "B".to_string(), "é".to_string(), "a".to_string()]);
    assert_eq!(sorted, vec!["B", "a", "a", "b", "é"]);
}

#[test]
fn sorting_agrees_with_std_path_order() {
    let names = ["img10.png", "img2.png", "Zed.png", "alpha.png", "ä.png", "a b.png"];
    let mut expected: Vec<std::path::PathBuf> =
        names.iter().map(|n| std::path::Path::new("/w").join(n)).collect();
    expected.sort();
    let c = Config::with_root("/w".to_string());
    let listing = Some(names.iter().map(|n| entry(n, false)).collect());
    let items = list_directory("/w", "/w", &c, &listing);
    let expected: Vec<String> = expected.iter().map(|p| p.to_str().unwrap().to_string()).collect();
    assert_eq!(items, expected);
}
