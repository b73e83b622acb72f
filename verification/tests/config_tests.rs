use mac_wallpaper_tui::config::{
    default_preview_size, default_root_directory, is_image_extension, pictures_dir, Config,
    RootFacts, SYSTEM_WALLPAPERS,
};

fn config() -> Config {
    Config::with_root("/pics".to_string())
}

#[test]
fn image_extensions_ignore_case() {
    let c = config();
    assert!(c.is_valid_image("/pics/a.jpg"));
    assert!(c.is_valid_image("/pics/a.JPG"));
    assert!(c.is_valid_image("/pics/a.jpeg"));
    assert!(c.is_valid_image("/pics/a.Png"));
    assert!(c.is_valid_image("/pics/a.heic"));
    assert!(c.is_valid_image("/pics/a.webp"));
    assert!(!c.is_valid_image("/pics/a.gif"));
    assert!(!c.is_valid_image("/pics/a.madesktop"));
    assert!(!c.is_valid_image("/pics/jpg"));
    assert!(!c.is_valid_image("/pics/.jpg"));
}

#[test]
fn wallpapers_include_dynamic_desktops() {
    let c = config();
    assert!(c.is_valid_wallpaper("/pics/a.jpg"));
    assert!(c.is_valid_wallpaper("/pics/Sonoma.madesktop"));
    assert!(c.is_valid_wallpaper("/pics/Sonoma.MADESKTOP"));
    assert!(!c.is_valid_wallpaper("/pics/notes.txt"));
    assert!(!c.is_valid_wallpaper("/pics/noext"));
}

#[test]
fn image_extension_list() {
    for e in ["jpg", "jpeg", "png", "heic", "webp"] {
        assert!(is_image_extension(e));
    }
    assert!(!is_image_extension("JPG"));
    assert!(!is_image_extension("gif"));
    assert!(!is_image_extension(""));
}

#[test]
fn defaults() {
    assert_eq!(default_preview_size(), 400);
    let c = Config::with_root("/x".to_string());
    assert_eq!(c.root_directory, "/x");
    assert!(!c.show_hidden);
    assert_eq!(c.preview_size, 400);
}

#[test]
fn default_root_prefers_system_then_pictures_then_cwd() {
    let facts = RootFacts {
        system_wallpapers_exist: true,
        home_dir: Some("/Users/me".to_string()),
        home_pictures_exist: true,
        current_dir: Some("/tmp".to_string()),
    };
    assert_eq!(default_root_directory(&facts), SYSTEM_WALLPAPERS);
    let facts = RootFacts { system_wallpapers_exist: false, ..facts };
    assert_eq!(default_root_directory(&facts), "/Users/me/Pictures");
    let facts = RootFacts { home_pictures_exist: false, ..facts };
    assert_eq!(default_root_directory(&facts), "/tmp");
    let facts = RootFacts { current_dir: None, ..facts };
    assert_eq!(default_root_directory(&facts), ".");
    let facts = RootFacts {
        system_wallpapers_exist: false,
        home_dir: None,
        home_pictures_exist: true,
        current_dir: Some("/w".to_string()),
    };
    assert_eq!(default_root_directory(&facts), "/w");
}

#[test]
fn config_file_location() {
    assert_eq!(
        Config::config_path(Some("/home/u".to_string())),
        "/home/u/.config/mac-wallpaper-tui/config.toml"
    );
    assert_eq!(Config::config_path(None), ".config/mac-wallpaper-tui/config.toml");
    assert_eq!(pictures_dir("/Users/me"), "/Users/me/Pictures");
}
