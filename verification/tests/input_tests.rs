use mac_wallpaper_tui::input::{clicked_index, command_for_key, ClickState, Command, KeyInput};
use mac_wallpaper_tui::ui::Area;

#[test]
fn key_bindings() {
    assert_eq!(command_for_key(true, KeyInput::Char('q')), Some(Command::Quit));
    assert_eq!(command_for_key(true, KeyInput::Char('j')), Some(Command::Next));
    assert_eq!(command_for_key(true, KeyInput::Down), Some(Command::Next));
    assert_eq!(command_for_key(true, KeyInput::Char('k')), Some(Command::Previous));
    assert_eq!(command_for_key(true, KeyInput::Up), Some(Command::Previous));
    assert_eq!(command_for_key(true, KeyInput::Char('h')), Some(Command::Back));
    assert_eq!(command_for_key(true, KeyInput::Left), Some(Command::Back));
    assert_eq!(command_for_key(true, KeyInput::Char('l')), Some(Command::Enter));
    assert_eq!(command_for_key(true, KeyInput::Right), Some(Command::Enter));
    assert_eq!(command_for_key(true, KeyInput::Char(' ')), Some(Command::ToggleFavorite));
    assert_eq!(command_for_key(true, KeyInput::Char('f')), Some(Command::ToggleFavorite));
    assert_eq!(command_for_key(true, KeyInput::Char('r')), Some(Command::RandomWallpaper));
    assert_eq!(command_for_key(true, KeyInput::Char('R')), Some(Command::ShowRecent));
    assert_eq!(command_for_key(true, KeyInput::Enter), Some(Command::SetWallpaper));
    assert_eq!(command_for_key(true, KeyInput::Char('x')), None);
    assert_eq!(command_for_key(true, KeyInput::Other), None);
    assert_eq!(command_for_key(false, KeyInput::Char('q')), None);
}

#[test]
fn clicks_map_to_entries() {
    let area = Area { x: 0, y: 1, width: 30, height: 10 };
    assert_eq!(clicked_index(0, &area), None);
    assert_eq!(clicked_index(2, &area), None);
    assert_eq!(clicked_index(3, &area), Some(0));
    assert_eq!(clicked_index(9, &area), Some(6));
    assert_eq!(clicked_index(10, &area), None);
}

#[test]
fn double_clicks() {
    let mut s = ClickState { last_index: None };
    assert!(!s.click(Some(2), 100));
    assert_eq!(s.last_index, Some(2));
    assert!(s.click(Some(2), 499));
    assert_eq!(s.last_index, None);
    assert!(!s.click(Some(2), 10));
    assert!(!s.click(Some(2), 500));
    assert!(!s.click(Some(3), 10));
    assert!(!s.click(None, 10));
    assert_eq!(s.last_index, None);
}
