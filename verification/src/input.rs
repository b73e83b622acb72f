//! What the keys and mouse clicks of the event loop mean.
use vstd::prelude::*;
use crate::ui::Area;

verus! {

/// How often the event loop ticks, in milliseconds.
pub const TICK_RATE_MS: u64 = 250;

/// The longest pause between two clicks on one entry that makes a double
/// click, in milliseconds.
pub const DOUBLE_CLICK_MS: u128 = 500;

/// A key the event loop can receive.
#[derive(Debug, Clone, Copy, PartialEq, Eq, Structural)]
pub enum KeyInput {
    Char(char),
    Up,
    Down,
    Left,
    Right,
    Enter,
    Other,
}

/// What the user asks for.
#[derive(Debug, Clone, Copy, PartialEq, Eq, Structural)]
pub enum Command {
    Quit,
    Next,
    Previous,
    Back,
    Enter,
    ToggleFavorite,
    RandomWallpaper,
    ShowRecent,
    SetWallpaper,
}

/// The command of a key: `q` quits; `j`/down and `k`/up move; `h`/left
/// goes back and `l`/right enters; space and `f` toggle the favourite; `r`
/// sets a random wallpaper and `R` shows the recent ones; Enter sets the
/// selection as wallpaper. Only key presses count.
pub open spec fn command_spec(pressed: bool, key: KeyInput) -> Option<Command> {
    if !pressed {
        None
    } else {
        match key {
            KeyInput::Char('q') => Some(Command::Quit),
            KeyInput::Char('j') | KeyInput::Down => Some(Command::Next),
            KeyInput::Char('k') | KeyInput::Up => Some(Command::Previous),
            KeyInput::Char('h') | KeyInput::Left => Some(Command::Back),
            KeyInput::Char('l') | KeyInput::Right => Some(Command::Enter),
            KeyInput::Char(' ') | KeyInput::Char('f') => Some(Command::ToggleFavorite),
            KeyInput::Char('r') => Some(Command::RandomWallpaper),
            KeyInput::Char('R') => Some(Command::ShowRecent),
            KeyInput::Enter => Some(Command::SetWallpaper),
            _ => None,
        }
    }
}

/// The command of a key event.
pub fn command_for_key(pressed: bool, key: KeyInput) -> (r: Option<Command>)
    ensures
        r == command_spec(pressed, key),
{
    if !pressed {
        return None;
    }
    match key {
        KeyInput::Char('q') => Some(Command::Quit),
        KeyInput::Char('j') | KeyInput::Down => Some(Command::Next),
        KeyInput::Char('k') | KeyInput::Up => Some(Command::Previous),
        KeyInput::Char('h') | KeyInput::Left => Some(Command::Back),
        KeyInput::Char('l') | KeyInput::Right => Some(Command::Enter),
        KeyInput::Char(' ') | KeyInput::Char('f') => Some(Command::ToggleFavorite),
        KeyInput::Char('r') => Some(Command::RandomWallpaper),
        KeyInput::Char('R') => Some(Command::ShowRecent),
        KeyInput::Enter => Some(Command::SetWallpaper),
        _ => None,
    }
}

/// The entry under a click on row `row` of the browser panel `area`: the
/// panel's border and title take its first two rows and its last row.
pub fn clicked_index(row: u16, area: &Area) -> (r: Option<usize>)
    requires
        area.y + 2 <= u16::MAX,
        row >= area.y + 2 ==> 1 <= area.y + area.height <= u16::MAX,
    ensures
        r == if row >= area.y + 2 && row < area.y + area.height - 1 {
            Some((row - area.y - 2) as usize)
        } else {
            None
        },
{
    if row >= area.y + 2 && row < area.y + area.height - 1 {
        Some((row - area.y - 2) as usize)
    } else {
        None
    }
}

/// Whether a click is the second of a double click: it lands on the entry
/// the last click landed on, less than 500 milliseconds later.
pub open spec fn is_double_click_spec(
    last_index: Option<usize>,
    clicked: Option<usize>,
    elapsed_ms: u128,
) -> bool {
    clicked is Some && last_index == clicked && elapsed_ms < DOUBLE_CLICK_MS
}

/// What the event loop remembers of the last click.
pub struct ClickState {
    pub last_index: Option<usize>,
}

impl ClickState {
    /// Records a click on `clicked`, `elapsed_ms` after the last one.
    /// Returns whether it completes a double click; after a double click the
    /// next click starts afresh, after a single one it is remembered. The
    /// program remembers the time of single clicks.
    pub fn click(&mut self, clicked: Option<usize>, elapsed_ms: u128) -> (double: bool)
        ensures
            double == is_double_click_spec(old(self).last_index, clicked, elapsed_ms),
            final(self).last_index == if double {
                None
            } else {
                clicked
            },
    {
        let double = match clicked {
            Some(i) => match self.last_index {
                Some(j) => i == j && elapsed_ms < DOUBLE_CLICK_MS,
                None => false,
            },
            None => false,
        };
        if double {
            self.last_index = None;
        } else {
            self.last_index = clicked;
        }
        double
    }
}

} // verus!
