//! What the screen shows, computed from the browser's state.
use vstd::prelude::*;
use crate::app::App;
use crate::config::is_image_path;
use crate::path::{file_name, file_name_of};
use crate::text::{decimal, push_decimal};

verus! {

/// A rectangle of terminal cells.
#[derive(Debug, Clone, Copy, PartialEq, Eq, Structural)]
pub struct Area {
    pub x: u16,
    pub y: u16,
    pub width: u16,
    pub height: u16,
}

/// The name shown for a path: its file name, or the whole path when it has
/// none.
pub open spec fn display_name_spec(p: Seq<char>) -> Seq<char> {
    match file_name(p) {
        Some(n) => n,
        None => p,
    }
}

/// The name shown for a path.
pub fn display_name(path: &str) -> (r: String)
    ensures
        r@ == display_name_spec(path@),
{
    match file_name_of(path) {
        Some(n) => n,
        None => String::from_str(path),
    }
}

/// The mark shown before an entry of the browser.
pub open spec fn item_icon_spec(is_dir: bool, is_favorite: bool) -> Seq<char> {
    if is_dir {
        "[DIR]"@
    } else if is_favorite {
        "[FAV]"@
    } else {
        "[IMG]"@
    }
}

/// The mark shown before an entry: directories, then favourites, then
/// other images.
pub fn item_icon(is_dir: bool, is_favorite: bool) -> (r: &'static str)
    ensures
        r@ == item_icon_spec(is_dir, is_favorite),
{
    if is_dir {
        "[DIR]"
    } else if is_favorite {
        "[FAV]"
    } else {
        "[IMG]"
    }
}

/// Every directory gets the directory mark, whether or not it is a
/// favourite; a favourite file gets the favourite mark, any other file the
/// image mark.
pub proof fn law_item_icons(is_dir: bool, is_favorite: bool)
    ensures
        is_dir ==> item_icon_spec(is_dir, is_favorite) == "[DIR]"@,
        !is_dir && is_favorite ==> item_icon_spec(is_dir, is_favorite) == "[FAV]"@,
        !is_dir && !is_favorite ==> item_icon_spec(is_dir, is_favorite) == "[IMG]"@,
{
}

/// The title of the browser panel: the recent list's name, or the current
/// directory, padded with a space on each side.
pub fn browser_title(app: &App) -> (r: String)
    ensures
        r@ == if app.show_recent {
            " Recent Wallpapers "@
        } else {
            " "@ + app.current_dir@ + " "@
        },
{
    if app.show_recent {
        String::from_str(" Recent Wallpapers ")
    } else {
        String::from_str(" ").concat(app.current_dir.as_str()).concat(" ")
    }
}

/// The text shown in the preview panel when no image is shown: for a
/// directory, how to open it; for an image, that it is loading; else none.
pub open spec fn preview_message_spec(app: App, has_image: bool, selected_is_dir: bool) -> Option<
    Seq<char>,
> {
    if has_image {
        None
    } else {
        match app.selected_spec() {
            Some(p) => if selected_is_dir {
                Some("Directory\n\nPress l or right arrow to open"@)
            } else if is_image_path(p) {
                Some("Loading..."@)
            } else {
                None
            },
            None => None,
        }
    }
}

/// The text shown in the preview panel when no image is shown, given
/// whether an image is shown and whether the selection is a directory.
pub fn preview_message(app: &App, has_image: bool, selected_is_dir: bool) -> (r: Option<
    &'static str,
>)
    ensures
        match r {
            Some(t) => preview_message_spec(*app, has_image, selected_is_dir) == Some(t@),
            None => preview_message_spec(*app, has_image, selected_is_dir) is None,
        },
{
    if has_image {
        return None;
    }
    match app.selected_item() {
        Some(p) => {
            if selected_is_dir {
                Some("Directory\n\nPress l or right arrow to open")
            } else if app.config.is_valid_image(p.as_str()) {
                Some("Loading...")
            } else {
                None
            }
        },
        None => None,
    }
}

/// What the status bar shows.
pub enum StatusBar {
    /// The status message.
    Message(String),
    /// The key help.
    Help,
}

/// The status bar shows the status message when there is one, else the key
/// help.
pub fn status_bar(app: &App) -> (r: StatusBar)
    ensures
        match app.status_message {
            Some(m) => r matches StatusBar::Message(t) && t@ == m@,
            None => r is Help,
        },
{
    match &app.status_message {
        Some(m) => StatusBar::Message(String::from_str(m.as_str())),
        None => StatusBar::Help,
    }
}

/// The unit a file size is shown in.
#[derive(Debug, Clone, Copy, PartialEq, Eq, Structural)]
pub enum SizeUnit {
    Megabytes,
    Kilobytes,
    Bytes,
}

/// Sizes above a mebibyte are shown in MB, above a kibibyte in KB, others
/// in bytes.
pub fn size_unit(size: u64) -> (r: SizeUnit)
    ensures
        r == if size > 1024 * 1024 {
            SizeUnit::Megabytes
        } else if size > 1024 {
            SizeUnit::Kilobytes
        } else {
            SizeUnit::Bytes
        },
{
    if size > 1024 * 1024 {
        SizeUnit::Megabytes
    } else if size > 1024 {
        SizeUnit::Kilobytes
    } else {
        SizeUnit::Bytes
    }
}

/// A size shown in bytes: the number and "B".
pub fn bytes_label(size: u64) -> (r: String)
    ensures
        r@ == decimal(size as nat) + " B"@,
{
    let mut s = String::new();
    push_decimal(&mut s, size);
    s.append(" B");
    s
}

/// Image dimensions shown as width "x" height.
pub fn dimensions_label(width: u32, height: u32) -> (r: String)
    ensures
        r@ == decimal(width as nat) + "x"@ + decimal(height as nat),
{
    let mut s = String::new();
    push_decimal(&mut s, width as u64);
    s.append("x");
    push_decimal(&mut s, height as u64);
    s
}

} // verus!
