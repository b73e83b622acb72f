use mac_wallpaper_tui::app::App;
use mac_wallpaper_tui::config::Config;
use mac_wallpaper_tui::database::Database;
use mac_wallpaper_tui::listing::DirEntry;
use mac_wallpaper_tui::ui::{
    browser_title, bytes_label, dimensions_label, display_name, item_icon, preview_message,
    size_unit, status_bar, SizeUnit, StatusBar,
};

fn app() -> App {
    App::new(
        Config::with_root("/w".to_string()),
        Some(vec![
            DirEntry { name: "dir".to_string(), is_dir: true },
            DirEntry { name: "a.png".to_string(), is_dir: false },
            DirEntry { name: "d.madesktop".to_string(), is_dir: false },
        ]),
        vec![],
        vec!["/r/x.jpg".to_string()],
    )
}

#[test]
fn icons() {
    assert_eq!(item_icon(true, true), "[DIR]");
    assert_eq!(item_icon(false, true), "[FAV]");
    assert_eq!(item_icon(false, false), "[IMG]");
}

#[test]
fn names_and_titles() {
    assert_eq!(display_name("/w/a.png"), "a.png");
    assert_eq!(display_name(".."), "..");
    assert_eq!(display_name("/"), "/");
    let mut a = app();
    assert_eq!(browser_title(&a), " /w ");
    a.show_recent_wallpapers(None);
    assert_eq!(browser_title(&a), " Recent Wallpapers ");
}

#[test]
fn preview_messages() {
    let mut a = app();
    assert_eq!(preview_message(&a, true, true), None);
    assert_eq!(preview_message(&a, false, true), Some("Directory\n\nPress l or right arrow to open"));
    a.selected_index = 1;
    assert_eq!(preview_message(&a, false, false), Some("Loading..."));
    a.selected_index = 2;
    assert_eq!(preview_message(&a, false, false), None);
    a.selected_index = 7;
    assert_eq!(preview_message(&a, false, false), None);
}

#[test]
fn sizes_and_dimensions() {
    assert_eq!(size_unit(2 * 1024 * 1024), SizeUnit::Megabytes);
    assert_eq!(size_unit(1024 * 1024), SizeUnit::Kilobytes);
    assert_eq!(size_unit(1025), SizeUnit::Kilobytes);
    assert_eq!(size_unit(1024), SizeUnit::Bytes);
    assert_eq!(bytes_label(512), "512 B");
    assert_eq!(bytes_label(0), "0 B");
    assert_eq!(dimensions_label(1920, 1080), "1920x1080");
}

#[test]
fn database_location() {
    assert_eq!(Database::database_path(Some("/d".to_string())), "/d/mac-wallpaper-tui/app.db");
    assert_eq!(Database::database_path(None), ".data/mac-wallpaper-tui/app.db");
}

#[test]
fn status_bar_shows_the_message_or_the_help() {
    let mut a = app();
    assert!(matches!(status_bar(&a), StatusBar::Help));
    a.status_message = Some("Added to favorites".to_string());
    match status_bar(&a) {
        StatusBar::Message(m) => assert_eq!(m, "Added to favorites"),
        StatusBar::Help => panic!("expected the message"),
    }
}
