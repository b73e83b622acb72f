use mac_wallpaper_tui::terminal::{text_contains, TerminalDetector, TerminalEnv, TerminalProtocol};

fn env(term_program: &str, term: &str, tmux: bool, kitty: bool) -> TerminalEnv {
    TerminalEnv {
        term_program: term_program.to_string(),
        term: term.to_string(),
        tmux,
        kitty_window_id: kitty,
    }
}

#[test]
fn direct_terminals() {
    let c = TerminalDetector::detect(&env("ghostty", "xterm-ghostty", false, false));
    assert_eq!(c.protocol, TerminalProtocol::Kitty);
    assert_eq!(c.terminal_name, "ghostty");
    assert_eq!(c.font_size, (8, 16));
    let c = TerminalDetector::detect(&env("iTerm.app", "xterm-256color", false, false));
    assert_eq!(c.protocol, TerminalProtocol::Iterm2);
    assert_eq!(c.font_size, (7, 14));
    let c = TerminalDetector::detect(&env("WarpTerminal", "", false, false));
    assert_eq!(c.protocol, TerminalProtocol::Iterm2);
    let c = TerminalDetector::detect(&env("Apple_Terminal", "", false, false));
    assert_eq!(c.protocol, TerminalProtocol::Sixel);
    assert_eq!(c.terminal_name, "Terminal.app");
    let c = TerminalDetector::detect(&env("", "xterm-kitty", false, false));
    assert_eq!(c.protocol, TerminalProtocol::Kitty);
    assert_eq!(c.terminal_name, "kitty");
    let c = TerminalDetector::detect(&env("", "foot-extra", false, false));
    assert_eq!(c.protocol, TerminalProtocol::Sixel);
    assert_eq!(c.font_size, (9, 18));
}

#[test]
fn unknown_terminal_has_no_images() {
    let c = TerminalDetector::detect(&env("vscode", "xterm-256color", false, false));
    assert_eq!(c.protocol, TerminalProtocol::NoImages);
    assert_eq!(c.font_size, (8, 16));
    assert_eq!(c.terminal_name, "unknown");
    assert!(TerminalDetector::detect_from_env(&env("vscode", "xterm", false, false)).is_none());
    assert!(TerminalDetector::detect_via_csi().is_none());
}

#[test]
fn multiplexers() {
    let c = TerminalDetector::detect(&env("kitty", "screen-256color", false, false));
    assert_eq!(c.protocol, TerminalProtocol::Kitty);
    assert_eq!(c.terminal_name, "kitty (via multiplexer)");
    let c = TerminalDetector::detect(&env("WezTerm", "xterm", true, false));
    assert_eq!(c.protocol, TerminalProtocol::Iterm2);
    assert_eq!(c.terminal_name, "WezTerm (via multiplexer)");
    let c = TerminalDetector::detect(&env("WarpTerminal", "tmux-256color", true, false));
    assert_eq!(c.protocol, TerminalProtocol::Sixel);
    assert_eq!(c.terminal_name, "tmux (via multiplexer)");
    let c = TerminalDetector::detect(&env("", "screen", false, true));
    assert_eq!(c.protocol, TerminalProtocol::Kitty);
    assert_eq!(c.terminal_name, "kitty (via multiplexer)");
    assert_eq!(c.font_size, (8, 16));
}

#[test]
fn font_sizes() {
    assert_eq!(TerminalDetector::estimate_font_size("ghostty"), (8, 16));
    assert_eq!(TerminalDetector::estimate_font_size("kitty"), (8, 16));
    assert_eq!(TerminalDetector::estimate_font_size("iTerm.app"), (7, 14));
    assert_eq!(TerminalDetector::estimate_font_size("WezTerm"), (8, 16));
    assert_eq!(TerminalDetector::estimate_font_size("foot"), (9, 18));
    assert_eq!(TerminalDetector::estimate_font_size("other"), (8, 16));
}

#[test]
fn substring_search() {
    assert!(text_contains("screen-256color", "screen"));
    assert!(text_contains("abc", ""));
    assert!(text_contains("xterm-kitty", "kitty"));
    assert!(!text_contains("kit", "kitty"));
    assert!(!text_contains("", "a"));
}
