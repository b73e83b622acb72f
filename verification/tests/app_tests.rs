use mac_wallpaper_tui::app::{App, EnterPlan, FavoriteChange, PreviewOutcome, MAX_RANDOM_CANDIDATES};
use mac_wallpaper_tui::config::Config;
use mac_wallpaper_tui::listing::DirEntry;

fn entry(name: &str, is_dir: bool) -> DirEntry {
    DirEntry { name: name.to_string(), is_dir }
}

fn root_listing() -> Option<Vec<DirEntry>> {
    Some(vec![entry("b.jpg", false), entry("Nature", true), entry("a.png", false)])
}

fn app() -> App {
    App::new(
        Config::with_root("/w".to_string()),
        root_listing(),
        vec!["/w/b.jpg".to_string()],
        vec!["/old/x.jpg".to_string(), "/old/y.jpg".to_string()],
    )
}

#[test]
fn new_app_shows_root() {
    let a = app();
    assert_eq!(a.root_dir, "/w");
    assert_eq!(a.current_dir, "/w");
    assert_eq!(a.items, vec!["/w/Nature", "/w/a.png", "/w/b.jpg"]);
    assert_eq!(a.selected_index, 0);
    assert!(!a.show_recent);
    assert!(a.status_message.is_none());
    assert!(a.current_preview.is_none());
    assert!(a.preview_area.is_none());
}

#[test]
fn next_and_previous_wrap_around() {
    let mut a = app();
    assert!(a.next());
    assert_eq!(a.selected_index, 1);
    assert!(a.next());
    assert!(a.next());
    assert_eq!(a.selected_index, 0);
    assert!(a.previous());
    assert_eq!(a.selected_index, 2);
    assert!(a.previous());
    assert_eq!(a.selected_index, 1);
}

#[test]
fn next_then_previous_returns() {
    let mut a = app();
    for start in 0..3 {
        a.selected_index = start;
        a.next();
        a.previous();
        assert_eq!(a.selected_index, start);
        a.previous();
        a.next();
        assert_eq!(a.selected_index, start);
    }
}

#[test]
fn moving_in_an_empty_list_does_nothing() {
    let mut a = App::new(Config::with_root("/w".to_string()), Some(vec![]), vec![], vec![]);
    assert!(!a.next());
    assert!(!a.previous());
    assert_eq!(a.selected_index, 0);
}

#[test]
fn entering_a_directory_and_going_back() {
    let mut a = app();
    match a.enter() {
        EnterPlan::OpenDirectory(d) => {
            assert_eq!(d, "/w/Nature");
            a.open_directory(d, Some(vec![entry("sea.jpg", false)]));
        }
        _ => panic!("expected a directory"),
    }
    assert_eq!(a.current_dir, "/w/Nature");
    assert_eq!(a.items, vec!["..", "/w/Nature/sea.jpg"]);
    assert_eq!(a.selected_index, 0);
    // Entering ".." goes up to the root.
    match a.enter() {
        EnterPlan::OpenDirectory(d) => assert_eq!(d, "/w"),
        _ => panic!("expected the parent"),
    }
    assert_eq!(a.go_back(), Some("/w".to_string()));
    a.open_directory("/w".to_string(), root_listing());
    assert_eq!(a.current_dir, "/w");
    // At the root there is nowhere to go back to.
    assert_eq!(a.go_back(), None);
}

#[test]
fn entering_beyond_the_list_stays() {
    let mut a = app();
    a.selected_index = 10;
    assert!(matches!(a.enter(), EnterPlan::Stay));
}

#[test]
fn entering_a_file_asks_to_open_it_as_directory() {
    let mut a = app();
    a.selected_index = 1;
    match a.enter() {
        EnterPlan::OpenDirectory(d) => assert_eq!(d, "/w/a.png"),
        _ => panic!("expected the entry"),
    }
}

#[test]
fn recent_list_toggles() {
    let mut a = app();
    a.selected_index = 2;
    let relisted = a.show_recent_wallpapers(root_listing());
    assert!(!relisted);
    assert!(a.show_recent);
    assert_eq!(a.items, vec!["/old/x.jpg", "/old/y.jpg"]);
    assert_eq!(a.selected_index, 0);
    assert_eq!(a.selected_item(), Some(&"/old/x.jpg".to_string()));
    match a.enter() {
        EnterPlan::SetWallpaper(p) => assert_eq!(p, Some("/old/x.jpg".to_string())),
        _ => panic!("expected a wallpaper"),
    }
    assert_eq!(a.go_back(), Some("/w".to_string()));
    let relisted = a.show_recent_wallpapers(root_listing());
    assert!(relisted);
    assert!(!a.show_recent);
    assert_eq!(a.items, vec!["/w/Nature", "/w/a.png", "/w/b.jpg"]);
}

#[test]
fn empty_recent_list_is_reported() {
    let mut a = App::new(Config::with_root("/w".to_string()), root_listing(), vec![], vec![]);
    let relisted = a.show_recent_wallpapers(root_listing());
    assert!(relisted);
    assert!(!a.show_recent);
    assert_eq!(a.status_message.as_deref(), Some("No recent wallpapers"));
}

#[test]
fn reload_keeps_the_selection() {
    let mut a = app();
    a.show_recent_wallpapers(root_listing());
    a.selected_index = 1;
    a.reload_items(Some(vec![entry("c.jpg", false)]));
    assert!(!a.show_recent);
    assert_eq!(a.selected_index, 1);
    assert_eq!(a.items, vec!["/w/c.jpg"]);
}

#[test]
fn favourites_toggle() {
    let mut a = app();
    assert!(a.is_favorite("/w/b.jpg"));
    assert!(a.is_favorite("/w//b.jpg"));
    assert!(!a.is_favorite("/w/a.png"));
    assert!(matches!(a.favorite_change("/w/a.png"), FavoriteChange::Add));
    a.toggle_favorite("/w/a.png".to_string(), Ok(()));
    assert_eq!(a.favorites, vec!["/w/b.jpg", "/w/a.png"]);
    assert_eq!(a.status_message.as_deref(), Some("Added to favorites"));
    assert!(matches!(a.favorite_change("/w/a.png"), FavoriteChange::Remove));
    a.toggle_favorite("/w/a.png".to_string(), Ok(()));
    assert_eq!(a.favorites, vec!["/w/b.jpg"]);
    assert_eq!(a.status_message.as_deref(), Some("Removed from favorites"));
}

#[test]
fn favourite_removal_removes_equal_paths() {
    let mut a = App::new(
        Config::with_root("/w".to_string()),
        None,
        vec!["/w/a.png".to_string(), "/w/b.jpg".to_string(), "/w//a.png".to_string()],
        vec![],
    );
    a.toggle_favorite("/w/a.png".to_string(), Ok(()));
    assert_eq!(a.favorites, vec!["/w/b.jpg"]);
}

#[test]
fn failed_favourite_change_only_reports() {
    let mut a = app();
    a.toggle_favorite("/w/a.png".to_string(), Err("disk full".to_string()));
    assert_eq!(a.favorites, vec!["/w/b.jpg"]);
    assert_eq!(a.status_message.as_deref(), Some("Error: disk full"));
}

#[test]
fn preview_flow() {
    let mut a = app();
    a.selected_index = 1;
    assert_eq!(a.preview_target(), Some("/w/a.png".to_string()));
    assert!(!a.update_preview(PreviewOutcome::Loaded(640, 480)));
    assert_eq!(a.current_preview.as_ref().map(|p| p.dimensions), Some((640, 480)));
    assert_eq!(a.current_preview.as_ref().map(|p| p.size_bytes), Some(0));
    assert_eq!(a.preview_target(), Some("/w/a.png".to_string()));
    assert!(a.current_preview.is_none());
    assert!(a.update_preview(PreviewOutcome::NotReady));
    assert!(!a.update_preview(PreviewOutcome::Failed("bad file".to_string())));
    assert_eq!(a.status_message.as_deref(), Some("Error loading image: bad file"));
    a.selected_index = 9;
    assert_eq!(a.preview_target(), None);
}

#[test]
fn images_to_preload() {
    let a = app();
    assert_eq!(a.preload_paths(), vec!["/w/a.png", "/w/b.jpg"]);
}

#[test]
fn random_wallpaper() {
    let mut a = app();
    assert_eq!(a.set_random_wallpaper(vec![]), None);
    assert_eq!(a.status_message.as_deref(), Some("No images found"));
    a.clear_status();
    assert!(a.status_message.is_none());
    let images = vec!["/w/a.png".to_string(), "/w/b.jpg".to_string()];
    for _ in 0..20 {
        let choice = a.set_random_wallpaper(images.clone()).unwrap();
        assert!(images.contains(&choice));
    }
    assert!(a.status_message.is_none());
}

#[test]
fn gathering_images() {
    let a = app();
    let mut images = vec![];
    assert!(a.collect_entry(&mut images, "/w/sub".to_string(), true));
    assert!(!a.collect_entry(&mut images, "/w/a.png".to_string(), false));
    assert!(!a.collect_entry(&mut images, "/w/notes.txt".to_string(), false));
    assert!(!a.collect_entry(&mut images, "/w/d.madesktop".to_string(), false));
    assert_eq!(images, vec!["/w/a.png"]);
    let mut many: Vec<String> = (0..MAX_RANDOM_CANDIDATES).map(|i| format!("/w/{}.jpg", i)).collect();
    assert!(!a.collect_entry(&mut many, "/w/sub".to_string(), true));
}

#[test]
fn wallpaper_script_and_result() {
    assert_eq!(
        App::wallpaper_script("/w/a b.jpg"),
        "tell application \"System Events\" to tell every desktop to set picture to \"/w/a b.jpg\""
    );
    let mut a = app();
    a.record_wallpaper_result("/w/Nature/sea.jpg", Ok(()));
    assert_eq!(a.status_message.as_deref(), Some("Set wallpaper: sea.jpg"));
    a.record_wallpaper_result("/", Ok(()));
    assert_eq!(a.status_message.as_deref(), Some("Set wallpaper: /"));
    a.record_wallpaper_result("/w/a.png", Err("no permission".to_string()));
    assert_eq!(a.status_message.as_deref(), Some("Failed: no permission"));
}

#[test]
fn tick_changes_nothing_and_selection_reads_the_list() {
    let mut a = app();
    a.on_tick();
    assert_eq!(a.selected_index, 0);
    assert_eq!(a.selected_item(), Some(&"/w/Nature".to_string()));
    a.selected_index = 3;
    assert_eq!(a.selected_item(), None);
}

#[test]
fn the_browser_never_leaves_the_root() {
    let mut a = App::new(Config::with_root("/w/sub".to_string()), Some(vec![]), vec![], vec![]);
    assert_eq!(a.go_back(), None);
    assert!(a.within_root_dir("/w/sub/x"));
    assert!(!a.within_root_dir("/w"));
    a.open_directory("/w/sub/x".to_string(), Some(vec![]));
    assert_eq!(a.items, vec![".."]);
    assert_eq!(a.go_back(), Some("/w/sub".to_string()));
    a.open_directory("/w/sub".to_string(), Some(vec![]));
    assert!(a.items.is_empty());
    assert_eq!(a.go_back(), None);
}

#[test]
fn clicking_selects_a_shown_entry() {
    let mut a = app();
    assert!(a.click_entry(2));
    assert_eq!(a.selected_index, 2);
    assert!(!a.click_entry(3));
    assert_eq!(a.selected_index, 2);
    a.show_recent_wallpapers(None);
    assert!(a.show_recent);
    assert!(a.click_entry(1));
    assert_eq!(a.selected_index, 1);
    assert!(!a.click_entry(2));
    assert_eq!(a.selected_index, 1);
}
