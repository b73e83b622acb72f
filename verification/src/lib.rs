//! The logic of a terminal wallpaper browser: path handling, directory
//! listings, the browser's navigation state, favourites and recent
//! wallpapers, terminal detection and the Kitty graphics framing.
//! Everything that touches the file system, the terminal, the database or
//! the system wallpaper lives in the program around this library.
use vstd::prelude::*;

pub mod app;
pub mod config;
pub mod database;
pub mod input;
pub mod kitty;
pub mod listing;
pub mod path;
pub mod preview;
pub mod terminal;
pub mod text;
pub mod ui;

verus! {
} // verus!
