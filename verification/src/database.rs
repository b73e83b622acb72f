//! Where the favourites and recent wallpapers are stored.
use vstd::prelude::*;
use crate::path::{join, join_path};

verus! {

/// Where the database file lives, given the user's data directory (`.data`
/// when there is none).
pub open spec fn database_path_spec(data_dir: Option<Seq<char>>) -> Seq<char> {
    let base = match data_dir {
        Some(d) => d,
        None => ".data"@,
    };
    join(join(base, "mac-wallpaper-tui"@), "app.db"@)
}

/// How many recent wallpapers the database keeps.
pub const RECENT_KEPT: usize = 50;

/// The database of favourites and recent wallpapers, apart from its
/// connection.
pub struct Database;

impl Database {
    /// Where the database file lives.
    pub fn database_path(data_dir: Option<String>) -> (r: String)
        ensures
            r@ == database_path_spec(
                match data_dir {
                    Some(d) => Some(d@),
                    None => None,
                },
            ),
    {
        let base = match data_dir {
            Some(d) => d,
            None => String::from_str(".data"),
        };
        let dir = join_path(base.as_str(), "mac-wallpaper-tui");
        join_path(dir.as_str(), "app.db")
    }
}

} // verus!
