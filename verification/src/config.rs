//! The browser's settings and the rules on which files it shows.
use vstd::prelude::*;
use crate::path::{extension, extension_of, join, join_path};
use crate::text::same_text;

verus! {

/// The result of std's `str::to_lowercase` on a string.
pub uninterp spec fn lowercase(s: Seq<char>) -> Seq<char>;

/// Whether every character of a string is ASCII.
pub open spec fn is_ascii_text(s: Seq<char>) -> bool {
    forall|i: int| 0 <= i < s.len() ==> (s[i] as u32) < 128
}

/// A character lower-cased the ASCII way: `A`-`Z` become `a`-`z`.
pub open spec fn ascii_lower(c: char) -> char {
    if 'A' <= c && c <= 'Z' {
        ((c as int) + 32) as char
    } else {
        c
    }
}

/// Lower-cases a string with std's `str::to_lowercase` (the Unicode
/// lower-case mapping). The contract names the result, and states what the
/// Unicode mapping gives for ASCII text: `A`-`Z` become `a`-`z`, every other
/// character stays.
#[verifier::external_body]
pub(crate) fn lower_case(s: &str) -> (r: String)
    ensures
        r@ == lowercase(s@),
        is_ascii_text(s@) ==> r@ == s@.map_values(|c: char| ascii_lower(c)),
{
    s.to_lowercase()
}

/// The extensions, in lower case, of the images the browser can preview.
pub open spec fn is_image_extension_spec(e: Seq<char>) -> bool {
    ||| e == "jpg"@
    ||| e == "jpeg"@
    ||| e == "png"@
    ||| e == "heic"@
    ||| e == "webp"@
}

/// Whether a path names an image the browser can preview: its extension,
/// lower-cased, is one of the image extensions.
pub open spec fn is_image_path(p: Seq<char>) -> bool {
    match extension(p) {
        Some(e) => is_image_extension_spec(lowercase(e)),
        None => false,
    }
}

/// Whether a path names a dynamic macOS wallpaper (`.madesktop`).
pub open spec fn is_madesktop_path(p: Seq<char>) -> bool {
    match extension(p) {
        Some(e) => lowercase(e) == "madesktop"@,
        None => false,
    }
}

/// Whether a path names a file that can be set as wallpaper.
pub open spec fn is_wallpaper_path(p: Seq<char>) -> bool {
    is_image_path(p) || is_madesktop_path(p)
}

/// Whether a lower-case extension is one of the image extensions.
pub fn is_image_extension(ext: &str) -> (r: bool)
    ensures
        r == is_image_extension_spec(ext@),
{
    same_text(ext, "jpg") || same_text(ext, "jpeg") || same_text(ext, "png") || same_text(
        ext,
        "heic",
    ) || same_text(ext, "webp")
}

/// The directory shown when no other root is configured and the system
/// wallpapers are present.
pub const SYSTEM_WALLPAPERS: &'static str = "/System/Library/Desktop Pictures";

/// The preview size a configuration gets when it names none.
pub const DEFAULT_PREVIEW_SIZE: u32 = 400;

/// The browser's settings.
pub struct Config {
    /// The directory the browser is confined to.
    pub root_directory: String,
    /// Whether hidden files are shown (read from the file, not used).
    pub show_hidden: bool,
    /// The preview size in pixels (read from the file, not used).
    pub preview_size: u32,
}

/// The preview size a configuration gets when it names none.
pub fn default_preview_size() -> (r: u32)
    ensures
        r == 400,
{
    DEFAULT_PREVIEW_SIZE
}

/// What the file system and environment say when a default root is chosen.
pub struct RootFacts {
    /// Whether the system wallpaper directory exists.
    pub system_wallpapers_exist: bool,
    /// The user's home directory, when known.
    pub home_dir: Option<String>,
    /// Whether the `Pictures` directory inside the home directory exists.
    pub home_pictures_exist: bool,
    /// The process's working directory, when it can be read.
    pub current_dir: Option<String>,
}

/// The `Pictures` directory inside a home directory.
pub fn pictures_dir(home: &str) -> (r: String)
    ensures
        r@ == join(home@, "Pictures"@),
{
    join_path(home, "Pictures")
}

/// The default root: the system wallpapers when they exist, else the
/// user's `Pictures` directory when it exists, else the working directory,
/// else `.`.
pub open spec fn default_root_spec(facts: RootFacts) -> Seq<char> {
    if facts.system_wallpapers_exist {
        SYSTEM_WALLPAPERS@
    } else if facts.home_dir is Some && facts.home_pictures_exist {
        join(facts.home_dir->0@, "Pictures"@)
    } else if facts.current_dir is Some {
        facts.current_dir->0@
    } else {
        "."@
    }
}

/// Chooses the default root directory from the given facts.
pub fn default_root_directory(facts: &RootFacts) -> (r: String)
    ensures
        r@ == default_root_spec(*facts),
{
    if facts.system_wallpapers_exist {
        return String::from_str(SYSTEM_WALLPAPERS);
    }
    if facts.home_pictures_exist {
        if let Some(home) = &facts.home_dir {
            return pictures_dir(home.as_str());
        }
    }
    match &facts.current_dir {
        Some(d) => d.clone(),
        None => String::from_str("."),
    }
}

/// Where the configuration file lives, given the user's home directory:
/// `~/.config/mac-wallpaper-tui/config.toml` (relative to the working
/// directory when there is no home).
pub open spec fn config_path_spec(home_dir: Option<Seq<char>>) -> Seq<char> {
    let base = match home_dir {
        Some(d) => d,
        None => seq![],
    };
    join(join(join(base, ".config"@), "mac-wallpaper-tui"@), "config.toml"@)
}

impl Config {
    /// The settings used when there is no configuration file.
    pub fn with_root(root_directory: String) -> (r: Config)
        ensures
            r.root_directory == root_directory,
            !r.show_hidden,
            r.preview_size == 400,
    {
        Config { root_directory, show_hidden: false, preview_size: default_preview_size() }
    }

    /// Where the configuration file lives, given the user's home directory.
    pub fn config_path(home_dir: Option<String>) -> (r: String)
        ensures
            r@ == config_path_spec(
                match home_dir {
                    Some(d) => Some(d@),
                    None => None,
                },
            ),
    {
        let base = match home_dir {
            Some(d) => d,
            None => String::new(),
        };
        let dot_config = join_path(base.as_str(), ".config");
        let dir = join_path(dot_config.as_str(), "mac-wallpaper-tui");
        join_path(dir.as_str(), "config.toml")
    }

    /// Whether a path names an image the browser can preview.
    pub fn is_valid_image(&self, path: &str) -> (r: bool)
        ensures
            r == is_image_path(path@),
    {
        match extension_of(path) {
            Some(ext) => {
                let lower = lower_case(ext.as_str());
                is_image_extension(lower.as_str())
            },
            None => false,
        }
    }

    /// Whether a path names a file that can be set as wallpaper: an image,
    /// or a dynamic `.madesktop` wallpaper.
    pub fn is_valid_wallpaper(&self, path: &str) -> (r: bool)
        ensures
            r == is_wallpaper_path(path@),
    {
        if self.is_valid_image(path) {
            return true;
        }
        match extension_of(path) {
            Some(ext) => {
                let lower = lower_case(ext.as_str());
                same_text(lower.as_str(), "madesktop")
            },
            None => false,
        }
    }
}

/// Every path the browser can preview can also be set as wallpaper.
pub proof fn law_image_is_wallpaper(p: Seq<char>)
    ensures
        is_image_path(p) ==> is_wallpaper_path(p),
{
}

} // verus!
