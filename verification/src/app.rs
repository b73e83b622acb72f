//! The browser's state and every decision it takes on a user command.
//!
//! The program around the library does the file-system, image, database
//! and wallpaper work; it asks the state what to do (`enter`, `go_back`,
//! `preview_target`, ...) and reports what happened (`open_directory`,
//! `update_preview`, `toggle_favorite`, ...).
use vstd::prelude::*;
use rand::seq::SliceRandom;
use crate::config::{is_image_path, Config};
use crate::listing::{
    entries_wf, lemma_listing_stays_within, list_directory, listing_spec, listing_view,
    string_views, DirEntry,
};
use crate::path::{
    components, ends_in_parent_dir, is_entry_name, join, lemma_parent_components,
    lemma_parent_of_join, lemma_starts_with_self, parent, parent_of, path_eq,
    path_ends_in_parent_dir, path_equals, path_starts_with, starts_with, Component,
};
use crate::preview::CachedImage;
use crate::ui::{display_name, display_name_spec, Area};

verus! {

/// The text of an optional string.
pub open spec fn opt_view(o: Option<String>) -> Option<Seq<char>> {
    match o {
        Some(s) => Some(s@),
        None => None,
    }
}

/// What `enter` asks the program to do.
pub enum EnterPlan {
    /// In the recent list: set the selected recent wallpaper (if any), then
    /// reload the current directory with `reload_items`.
    SetWallpaper(Option<String>),
    /// Open this directory with `open_directory` if it is one.
    OpenDirectory(String),
    /// Nothing to do.
    Stay,
}

/// The meaning of an `EnterPlan`.
pub enum EnterStep {
    SetWallpaper(Option<Seq<char>>),
    OpenDirectory(Seq<char>),
    Stay,
}

impl View for EnterPlan {
    type V = EnterStep;

    open spec fn view(&self) -> EnterStep {
        match self {
            EnterPlan::SetWallpaper(p) => EnterStep::SetWallpaper(opt_view(*p)),
            EnterPlan::OpenDirectory(d) => EnterStep::OpenDirectory(d@),
            EnterPlan::Stay => EnterStep::Stay,
        }
    }
}

/// What loading a preview came to.
pub enum PreviewOutcome {
    /// The image was loaded; these are its dimensions.
    Loaded(u32, u32),
    /// The thumbnail is not ready yet.
    NotReady,
    /// Loading failed with this message.
    Failed(String),
}

/// Whether the selected path is added to or removed from the favourites.
pub enum FavoriteChange {
    Add,
    Remove,
}

/// Whether a path is among `favs`, compared as paths.
pub open spec fn contains_path(favs: Seq<Seq<char>>, p: Seq<char>) -> bool {
    exists|i: int| 0 <= i < favs.len() && path_eq(#[trigger] favs[i], p)
}

/// `favs` without the entries equal to `p` as paths.
pub open spec fn without_path(favs: Seq<Seq<char>>, p: Seq<char>) -> Seq<Seq<char>>
    decreases favs.len(),
{
    if favs.len() == 0 {
        seq![]
    } else {
        without_path(favs.drop_last(), p) + if path_eq(favs.last(), p) {
            seq![]
        } else {
            seq![favs.last()]
        }
    }
}

/// The favourites after `p` is toggled: removed when it is one, added at
/// the end when it is not.
pub open spec fn toggled(favs: Seq<Seq<char>>, p: Seq<char>) -> Seq<Seq<char>> {
    if contains_path(favs, p) {
        without_path(favs, p)
    } else {
        favs.push(p)
    }
}

/// The entries of `items` that are images the browser can preview.
pub open spec fn image_items(items: Seq<Seq<char>>) -> Seq<Seq<char>>
    decreases items.len(),
{
    if items.len() == 0 {
        seq![]
    } else {
        image_items(items.drop_last()) + if is_image_path(items.last()) {
            seq![items.last()]
        } else {
            seq![]
        }
    }
}

/// The selection after moving down: one further, wrapping to the top.
pub open spec fn next_index(sel: nat, len: nat) -> nat {
    (sel + 1) % len
}

/// The selection after moving up: one back, wrapping to the bottom.
pub open spec fn previous_index(sel: nat, len: nat) -> nat {
    if sel == 0 {
        (len - 1) as nat
    } else {
        (sel - 1) as nat
    }
}

/// The selection after moving down `k` times.
pub open spec fn next_iterated(sel: nat, len: nat, k: nat) -> nat
    decreases k,
{
    if k == 0 {
        sel
    } else {
        next_index(next_iterated(sel, len, (k - 1) as nat), len)
    }
}

/// The AppleScript that sets every desktop's picture to `path`.
pub open spec fn wallpaper_script_spec(path: Seq<char>) -> Seq<char> {
    "tell application \"System Events\" to tell every desktop to set picture to \""@ + path
        + "\""@
}

/// The most images gathered before the search for a random wallpaper stops
/// descending into further directories.
pub const MAX_RANDOM_CANDIDATES: usize = 1000;

/// How many recent wallpapers the browser shows.
pub const RECENT_SHOWN: usize = 10;

/// Picks one element of a list at random, with `rand`'s
/// `SliceRandom::choose` and the thread-local generator. `choose` returns
/// `None` exactly when the list is empty and otherwise one of its elements;
/// which one rests on chance and is not stated.
#[verifier::external_body]
fn choose_random(items: &Vec<String>) -> (r: Option<String>)
    ensures
        r is None <==> items@.len() == 0,
        r matches Some(x) ==> exists|i: int| 0 <= i < items@.len() && items@[i]@ == x@,
{
    let mut rng = rand::thread_rng();
    items.choose(&mut rng).cloned()
}

/// The browser's state.
pub struct App {
    /// The directory the browser is confined to.
    pub root_dir: String,
    /// The directory being shown.
    pub current_dir: String,
    /// The entries shown: the directory listing, or the recent wallpapers.
    pub items: Vec<String>,
    /// The position of the selection.
    pub selected_index: usize,
    /// What is shown of the previewed image.
    pub current_preview: Option<CachedImage>,
    /// The message in the status bar.
    pub status_message: Option<String>,
    /// The favourite wallpapers.
    pub favorites: Vec<String>,
    /// The wallpapers set most recently, newest first.
    pub recent_wallpapers: Vec<String>,
    /// Whether the recent wallpapers are shown instead of the directory.
    pub show_recent: bool,
    /// The settings.
    pub config: Config,
    /// Where the preview is drawn, once the screen has been drawn.
    pub preview_area: Option<Area>,
}

impl App {
    /// Whether a path lies inside the root.
    pub open spec fn within_root(&self, p: Seq<char>) -> bool {
        starts_with(p, self.root_dir@)
    }

    /// The state is sound: the current directory lies inside the root, and
    /// while a directory is shown each entry is the `..` entry or lies
    /// inside the root.
    pub open spec fn wf(&self) -> bool {
        &&& self.within_root(self.current_dir@)
        &&& !self.show_recent ==> forall|i: int|
            0 <= i < self.items@.len() ==> ends_in_parent_dir(#[trigger] self.items@[i]@)
                || self.within_root(self.items@[i]@)
    }

    /// The list the selection points into.
    pub open spec fn shown_list(&self) -> Seq<String> {
        if self.show_recent {
            self.recent_wallpapers@
        } else {
            self.items@
        }
    }

    /// The selected path, if the selection points at one.
    pub open spec fn selected_spec(&self) -> Option<Seq<char>> {
        if self.selected_index < self.shown_list().len() {
            Some(self.shown_list()[self.selected_index as int]@)
        } else {
            None
        }
    }

    /// What entering the selection does.
    pub open spec fn enter_spec(&self) -> EnterStep {
        if self.show_recent {
            EnterStep::SetWallpaper(self.selected_spec())
        } else if self.selected_index < self.items@.len() {
            let s = self.items@[self.selected_index as int]@;
            if ends_in_parent_dir(s) {
                match parent(self.current_dir@) {
                    Some(q) => if self.within_root(q) {
                        EnterStep::OpenDirectory(q)
                    } else {
                        EnterStep::Stay
                    },
                    None => EnterStep::Stay,
                }
            } else {
                EnterStep::OpenDirectory(s)
            }
        } else {
            EnterStep::Stay
        }
    }

    /// The directory going back opens: the current one again when leaving
    /// the recent list, else the parent when it lies inside the root.
    pub open spec fn go_back_spec(&self) -> Option<Seq<char>> {
        if self.show_recent {
            Some(self.current_dir@)
        } else {
            match parent(self.current_dir@) {
                Some(q) => if self.within_root(q) {
                    Some(q)
                } else {
                    None
                },
                None => None,
            }
        }
    }

    /// Whether a path is a favourite.
    pub open spec fn is_favorite_spec(&self, p: Seq<char>) -> bool {
        contains_path(string_views(self.favorites@), p)
    }

    /// The starting state: the root directory shown with its listing, the
    /// first entry selected.
    pub fn new(
        config: Config,
        listing: Option<Vec<DirEntry>>,
        favorites: Vec<String>,
        recent_wallpapers: Vec<String>,
    ) -> (app: App)
        requires
            listing matches Some(es) ==> entries_wf(es@),
        ensures
            app.wf(),
            app.root_dir@ == config.root_directory@,
            app.current_dir@ == config.root_directory@,
            string_views(app.items@) == listing_spec(
                config.root_directory@,
                config.root_directory@,
                listing_view(&listing),
            ),
            app.selected_index == 0,
            app.current_preview is None,
            app.status_message is None,
            app.favorites == favorites,
            app.recent_wallpapers == recent_wallpapers,
            !app.show_recent,
            app.config == config,
            app.preview_area is None,
    {
        let root_dir = config.root_directory.clone();
        let current_dir = root_dir.clone();
        let items = list_directory(current_dir.as_str(), root_dir.as_str(), &config, &listing);
        proof {
            let r = root_dir@;
            lemma_starts_with_self(r);
            lemma_listing_stays_within(r, r, listing_view(&listing));
            lemma_items_within(items@, r, listing_spec(r, r, listing_view(&listing)));
        }
        App {
            root_dir,
            current_dir,
            items,
            selected_index: 0,
            current_preview: None,
            status_message: None,
            favorites,
            recent_wallpapers,
            show_recent: false,
            config,
            preview_area: None,
        }
    }

    /// The listing shown for `path` (see `listing::list_directory`).
    pub fn list_directory(
        path: &str,
        root_dir: &str,
        config: &Config,
        listing: &Option<Vec<DirEntry>>,
    ) -> (r: Vec<String>)
        requires
            listing matches Some(es) ==> entries_wf(es@),
        ensures
            string_views(r@) == listing_spec(path@, root_dir@, listing_view(listing)),
    {
        list_directory(path, root_dir, config, listing)
    }

    /// Moves the selection down, wrapping to the top. Returns whether it
    /// moved (the list is not empty); the preview is then to be updated.
    pub fn next(&mut self) -> (moved: bool)
        requires
            old(self).items@.len() > 0 ==> old(self).selected_index < usize::MAX,
        ensures
            moved == (old(self).items@.len() > 0),
            *final(self) == (App {
                selected_index: if moved {
                    next_index(old(self).selected_index as nat, old(self).items@.len()) as usize
                } else {
                    old(self).selected_index
                },
                ..*old(self)
            }),
    {
        if self.items.len() > 0 {
            self.selected_index = (self.selected_index + 1) % self.items.len();
            true
        } else {
            false
        }
    }

    /// Moves the selection up, wrapping to the bottom. Returns whether it
    /// moved (the list is not empty); the preview is then to be updated.
    pub fn previous(&mut self) -> (moved: bool)
        ensures
            moved == (old(self).items@.len() > 0),
            *final(self) == (App {
                selected_index: if moved {
                    previous_index(old(self).selected_index as nat, old(self).items@.len())
                        as usize
                } else {
                    old(self).selected_index
                },
                ..*old(self)
            }),
    {
        if self.items.len() > 0 {
            if self.selected_index == 0 {
                self.selected_index = self.items.len() - 1;
            } else {
                self.selected_index -= 1;
            }
            true
        } else {
            false
        }
    }

    /// Whether a path lies inside the root.
    pub fn within_root_dir(&self, path: &str) -> (r: bool)
        ensures
            r == self.within_root(path@),
    {
        path_starts_with(path, self.root_dir.as_str())
    }

    /// What entering the selection does: in the recent list, set the
    /// selected wallpaper; on `..`, open the parent if it lies inside the
    /// root; on any other entry, open it if it is a directory.
    pub fn enter(&self) -> (plan: EnterPlan)
        requires
            self.wf(),
        ensures
            plan@ == self.enter_spec(),
            plan@ matches EnterStep::OpenDirectory(d) ==> self.within_root(d),
    {
        if self.show_recent {
            if self.selected_index < self.recent_wallpapers.len() {
                EnterPlan::SetWallpaper(Some(self.recent_wallpapers[self.selected_index].clone()))
            } else {
                EnterPlan::SetWallpaper(None)
            }
        } else if self.selected_index < self.items.len() {
            let selected = &self.items[self.selected_index];
            if path_ends_in_parent_dir(selected.as_str()) {
                match parent_of(self.current_dir.as_str()) {
                    Some(p) => {
                        if self.within_root_dir(p.as_str()) {
                            EnterPlan::OpenDirectory(p)
                        } else {
                            EnterPlan::Stay
                        }
                    },
                    None => EnterPlan::Stay,
                }
            } else {
                EnterPlan::OpenDirectory(selected.clone())
            }
        } else {
            EnterPlan::Stay
        }
    }

    /// Shows directory `dir` (inside the root) with its listing; the first
    /// entry is selected.
    pub fn open_directory(&mut self, dir: String, listing: Option<Vec<DirEntry>>)
        requires
            old(self).wf(),
            old(self).within_root(dir@),
            listing matches Some(es) ==> entries_wf(es@),
        ensures
            final(self).wf(),
            final(self).current_dir == dir,
            string_views(final(self).items@) == listing_spec(
                dir@,
                old(self).root_dir@,
                listing_view(&listing),
            ),
            final(self).selected_index == 0,
            !final(self).show_recent,
            final(self).root_dir == old(self).root_dir,
            final(self).current_preview == old(self).current_preview,
            final(self).status_message == old(self).status_message,
            final(self).favorites == old(self).favorites,
            final(self).recent_wallpapers == old(self).recent_wallpapers,
            final(self).config == old(self).config,
            final(self).preview_area == old(self).preview_area,
    {
        let items = list_directory(dir.as_str(), self.root_dir.as_str(), &self.config, &listing);
        proof {
            lemma_listing_stays_within(dir@, self.root_dir@, listing_view(&listing));
            lemma_items_within(
                items@,
                self.root_dir@,
                listing_spec(dir@, self.root_dir@, listing_view(&listing)),
            );
        }
        self.current_dir = dir;
        self.items = items;
        self.selected_index = 0;
        self.show_recent = false;
    }

    /// Shows the current directory again with a fresh listing, leaving the
    /// recent list; the selection stays where it was.
    pub fn reload_items(&mut self, listing: Option<Vec<DirEntry>>)
        requires
            old(self).wf(),
            listing matches Some(es) ==> entries_wf(es@),
        ensures
            final(self).wf(),
            string_views(final(self).items@) == listing_spec(
                old(self).current_dir@,
                old(self).root_dir@,
                listing_view(&listing),
            ),
            !final(self).show_recent,
            *final(self) == (App { items: final(self).items, show_recent: false, ..*old(self) }),
    {
        let items = list_directory(
            self.current_dir.as_str(),
            self.root_dir.as_str(),
            &self.config,
            &listing,
        );
        proof {
            lemma_listing_stays_within(self.current_dir@, self.root_dir@, listing_view(&listing));
            lemma_items_within(
                items@,
                self.root_dir@,
                listing_spec(self.current_dir@, self.root_dir@, listing_view(&listing)),
            );
        }
        self.items = items;
        self.show_recent = false;
    }

    /// The directory going back opens with `open_directory`: the current
    /// one again when the recent list is shown, else the parent when it
    /// lies inside the root. `None` when going back does nothing.
    pub fn go_back(&self) -> (target: Option<String>)
        requires
            self.wf(),
        ensures
            opt_view(target) == self.go_back_spec(),
            target matches Some(d) ==> self.within_root(d@),
    {
        if self.show_recent {
            Some(self.current_dir.clone())
        } else {
            match parent_of(self.current_dir.as_str()) {
                Some(p) => {
                    if self.within_root_dir(p.as_str()) {
                        Some(p)
                    } else {
                        None
                    }
                },
                None => None,
            }
        }
    }

    /// Whether a path is a favourite.
    pub fn is_favorite(&self, path: &str) -> (r: bool)
        ensures
            r == self.is_favorite_spec(path@),
    {
        let mut i: usize = 0;
        while i < self.favorites.len()
            invariant
                i <= self.favorites@.len(),
                forall|k: int| 0 <= k < i ==> !path_eq(#[trigger] self.favorites@[k]@, path@),
            decreases self.favorites.len() - i,
        {
            if path_equals(self.favorites[i].as_str(), path) {
                assert(path_eq(string_views(self.favorites@)[i as int], path@));
                return true;
            }
            i += 1;
        }
        assert(!self.is_favorite_spec(path@)) by {
            if self.is_favorite_spec(path@) {
                let k = choose|k: int|
                    0 <= k < string_views(self.favorites@).len() && path_eq(
                        #[trigger] string_views(self.favorites@)[k],
                        path@,
                    );
                assert(string_views(self.favorites@)[k] == self.favorites@[k]@);
            }
        }
        false
    }

    /// Whether toggling a path adds it to or removes it from the
    /// favourites (the program changes the database accordingly).
    pub fn favorite_change(&self, path: &str) -> (r: FavoriteChange)
        ensures
            r == (if self.is_favorite_spec(path@) {
                FavoriteChange::Remove
            } else {
                FavoriteChange::Add
            }),
    {
        if self.is_favorite(path) {
            FavoriteChange::Remove
        } else {
            FavoriteChange::Add
        }
    }

    /// Records the toggling of `path` once the database has been changed as
    /// `favorite_change` said: on success the path is removed from (every
    /// entry equal to it) or added to the end of the favourites, with a
    /// message; on failure only the error is shown.
    pub fn toggle_favorite(&mut self, path: String, outcome: Result<(), String>)
        ensures
            match outcome {
                Ok(_) => {
                    &&& string_views(final(self).favorites@) == toggled(
                        string_views(old(self).favorites@),
                        path@,
                    )
                    &&& final(self).status_message matches Some(m) && m@ == if old(
                        self,
                    ).is_favorite_spec(path@) {
                        "Removed from favorites"@
                    } else {
                        "Added to favorites"@
                    }
                },
                Err(e) => {
                    &&& final(self).favorites == old(self).favorites
                    &&& final(self).status_message matches Some(m) && m@ == "Error: "@ + e@
                },
            },
            *final(self) == (App {
                favorites: final(self).favorites,
                status_message: final(self).status_message,
                ..*old(self)
            }),
    {
        match outcome {
            Err(e) => {
                self.status_message = Some(String::from_str("Error: ").concat(e.as_str()));
            },
            Ok(_) => {
                if self.is_favorite(path.as_str()) {
                    let ghost favs = string_views(self.favorites@);
                    let mut kept: Vec<String> = Vec::new();
                    let mut i: usize = 0;
                    while i < self.favorites.len()
                        invariant
                            i <= self.favorites@.len(),
                            favs == string_views(self.favorites@),
                            string_views(kept@) == without_path(favs.take(i as int), path@),
                        decreases self.favorites.len() - i,
                    {
                        assert(favs.take(i + 1).drop_last() =~= favs.take(i as int));
                        if !path_equals(self.favorites[i].as_str(), path.as_str()) {
                            kept.push(self.favorites[i].clone());
                        }
                        assert(string_views(kept@) =~= without_path(favs.take(i + 1), path@));
                        i += 1;
                    }
                    assert(favs.take(i as int) =~= favs);
                    self.favorites = kept;
                    self.status_message = Some(String::from_str("Removed from favorites"));
                } else {
                    let ghost favs = string_views(self.favorites@);
                    self.favorites.push(path);
                    assert(string_views(self.favorites@) =~= favs.push(path@));
                    self.status_message = Some(String::from_str("Added to favorites"));
                }
            },
        }
    }

    /// Switches between the directory and the recent wallpapers, given a
    /// fresh listing of the current directory. Leaving the recent list, or
    /// asking for it when it is empty (with a message), shows the current
    /// directory with that listing. The selection goes to the top. Returns
    /// whether the directory's entries were loaded.
    pub fn show_recent_wallpapers(&mut self, listing: Option<Vec<DirEntry>>) -> (relisted: bool)
        requires
            old(self).wf(),
            listing matches Some(es) ==> entries_wf(es@),
        ensures
            final(self).wf(),
            relisted == (old(self).show_recent || old(self).recent_wallpapers@.len() == 0),
            relisted ==> string_views(final(self).items@) == listing_spec(
                old(self).current_dir@,
                old(self).root_dir@,
                listing_view(&listing),
            ),
            relisted ==> !final(self).show_recent,
            !relisted ==> final(self).show_recent && final(self).items@
                == old(self).recent_wallpapers@,
            if !old(self).show_recent && old(self).recent_wallpapers@.len() == 0 {
                final(self).status_message matches Some(m) && m@ == "No recent wallpapers"@
            } else {
                final(self).status_message == old(self).status_message
            },
            final(self).selected_index == 0,
            final(self).root_dir == old(self).root_dir,
            final(self).current_dir == old(self).current_dir,
            final(self).current_preview == old(self).current_preview,
            final(self).favorites == old(self).favorites,
            final(self).recent_wallpapers == old(self).recent_wallpapers,
            final(self).config == old(self).config,
            final(self).preview_area == old(self).preview_area,
    {
        let relisted;
        if self.show_recent {
            self.reload_items(listing);
            relisted = true;
        } else if self.recent_wallpapers.len() == 0 {
            self.status_message = Some(String::from_str("No recent wallpapers"));
            self.reload_items(listing);
            relisted = true;
        } else {
            self.show_recent = true;
            self.items = self.recent_wallpapers.clone();
            assert(self.items@ =~= self.recent_wallpapers@) by {
                assert forall|i: int| 0 <= i < self.items@.len() implies self.items@[i]
                    == self.recent_wallpapers@[i] by {
                    assert(cloned::<String>(self.recent_wallpapers@[i], self.items@[i]));
                }
            }
            relisted = false;
        }
        self.selected_index = 0;
        relisted
    }

    /// The path whose preview is to be loaded (the selection), with the
    /// current preview cleared.
    pub fn preview_target(&mut self) -> (target: Option<String>)
        ensures
            opt_view(target) == old(self).selected_spec(),
            *final(self) == (App { current_preview: None, ..*old(self) }),
    {
        self.current_preview = None;
        match self.selected_item() {
            Some(p) => Some(p.clone()),
            None => None,
        }
    }

    /// Records what loading the preview came to: the dimensions of a loaded
    /// image, or the error. Returns whether the image is to be prepared in
    /// the background (its thumbnail was not ready).
    pub fn update_preview(&mut self, outcome: PreviewOutcome) -> (preload: bool)
        ensures
            preload == (outcome is NotReady),
            match outcome {
                PreviewOutcome::Loaded(w, h) => *final(self) == (App {
                    current_preview: Some(CachedImage { dimensions: (w, h), size_bytes: 0 }),
                    ..*old(self)
                }),
                PreviewOutcome::NotReady => *final(self) == *old(self),
                PreviewOutcome::Failed(e) => {
                    &&& final(self).status_message matches Some(m) && m@ == "Error loading image: "@
                        + e@
                    &&& *final(self) == (App {
                        status_message: final(self).status_message,
                        ..*old(self)
                    })
                },
            },
    {
        match outcome {
            PreviewOutcome::Loaded(w, h) => {
                self.current_preview = Some(CachedImage { dimensions: (w, h), size_bytes: 0 });
                false
            },
            PreviewOutcome::NotReady => true,
            PreviewOutcome::Failed(e) => {
                self.status_message = Some(
                    String::from_str("Error loading image: ").concat(e.as_str()),
                );
                false
            },
        }
    }

    /// The entries whose images are to be prepared in the background: the
    /// shown entries the browser can preview, in order.
    pub fn preload_paths(&self) -> (r: Vec<String>)
        ensures
            string_views(r@) == image_items(string_views(self.items@)),
    {
        let ghost items = string_views(self.items@);
        let mut r: Vec<String> = Vec::new();
        let mut i: usize = 0;
        while i < self.items.len()
            invariant
                i <= self.items@.len(),
                items == string_views(self.items@),
                string_views(r@) == image_items(items.take(i as int)),
            decreases self.items.len() - i,
        {
            assert(items.take(i + 1).drop_last() =~= items.take(i as int));
            if self.config.is_valid_image(self.items[i].as_str()) {
                r.push(self.items[i].clone());
            }
            assert(string_views(r@) =~= image_items(items.take(i + 1)));
            i += 1;
        }
        assert(items.take(i as int) =~= items);
        r
    }

    /// Chooses a random wallpaper among `images` (gathered from the current
    /// directory and below); with none, says so in the status bar.
    pub fn set_random_wallpaper(&mut self, images: Vec<String>) -> (choice: Option<String>)
        ensures
            choice is None <==> images@.len() == 0,
            choice matches Some(x) ==> exists|i: int| 0 <= i < images@.len() && images@[i]@ == x@,
            images@.len() == 0 ==> {
                &&& final(self).status_message matches Some(m) && m@ == "No images found"@
                &&& *final(self) == (App {
                    status_message: final(self).status_message,
                    ..*old(self)
                })
            },
            images@.len() > 0 ==> *final(self) == *old(self),
    {
        if images.len() == 0 {
            self.status_message = Some(String::from_str("No images found"));
            return None;
        }
        choose_random(&images)
    }

    /// One entry met while gathering images for a random wallpaper: an image
    /// file is added; for a directory, returns whether to descend into it
    /// (fewer than 1000 images gathered so far).
    pub fn collect_entry(&self, images: &mut Vec<String>, path: String, is_dir: bool) -> (descend:
        bool)
        ensures
            descend == (is_dir && old(images)@.len() < MAX_RANDOM_CANDIDATES),
            final(images)@ == if !is_dir && is_image_path(path@) {
                old(images)@.push(path)
            } else {
                old(images)@
            },
    {
        if is_dir {
            images.len() < MAX_RANDOM_CANDIDATES
        } else {
            if self.config.is_valid_image(path.as_str()) {
                images.push(path);
            }
            false
        }
    }

    /// The AppleScript that sets every desktop's picture to `path`.
    pub fn wallpaper_script(path: &str) -> (r: String)
        ensures
            r@ == wallpaper_script_spec(path@),
    {
        String::from_str(
            "tell application \"System Events\" to tell every desktop to set picture to \"",
        ).concat(path).concat("\"")
    }

    /// Records the outcome of setting `path` as wallpaper: its name on
    /// success, the error output on failure.
    pub fn record_wallpaper_result(&mut self, path: &str, outcome: Result<(), String>)
        ensures
            final(self).status_message matches Some(m) && m@ == match outcome {
                Ok(_) => "Set wallpaper: "@ + display_name_spec(path@),
                Err(e) => "Failed: "@ + e@,
            },
            *final(self) == (App { status_message: final(self).status_message, ..*old(self) }),
    {
        match outcome {
            Ok(_) => {
                let name = display_name(path);
                self.status_message = Some(String::from_str("Set wallpaper: ").concat(name.as_str()));
            },
            Err(e) => {
                self.status_message = Some(String::from_str("Failed: ").concat(e.as_str()));
            },
        }
    }

    /// A click on entry `index` of the list shown: selects it when there is
    /// such an entry (the program then previews it, or sets it as wallpaper
    /// on a double click). Returns whether it did.
    pub fn click_entry(&mut self, index: usize) -> (r: bool)
        ensures
            r <==> index < old(self).shown_list().len(),
            r ==> *final(self) == (App { selected_index: index, ..*old(self) }),
            !r ==> *final(self) == *old(self),
    {
        let shown = if self.show_recent {
            self.recent_wallpapers.len()
        } else {
            self.items.len()
        };
        if index < shown {
            self.selected_index = index;
            true
        } else {
            false
        }
    }

    /// Clears the status bar.
    pub fn clear_status(&mut self)
        ensures
            *final(self) == (App { status_message: None, ..*old(self) }),
    {
        self.status_message = None;
    }

    /// Called on every tick of the event loop; changes nothing.
    pub fn on_tick(&mut self)
        ensures
            *final(self) == *old(self),
    {
    }

    /// The selected entry: in the recent list or in the directory.
    pub fn selected_item(&self) -> (r: Option<&String>)
        ensures
            match r {
                Some(s) => self.selected_spec() == Some(s@),
                None => self.selected_spec() is None,
            },
    {
        if self.show_recent {
            if self.selected_index < self.recent_wallpapers.len() {
                Some(&self.recent_wallpapers[self.selected_index])
            } else {
                None
            }
        } else {
            if self.selected_index < self.items.len() {
                Some(&self.items[self.selected_index])
            } else {
                None
            }
        }
    }
}

proof fn lemma_items_within(items: Seq<String>, root: Seq<char>, shown: Seq<Seq<char>>)
    requires
        string_views(items) == shown,
        forall|k: int|
            0 <= k < shown.len() ==> ends_in_parent_dir(#[trigger] shown[k]) || starts_with(
                shown[k],
                root,
            ),
    ensures
        forall|i: int|
            0 <= i < items.len() ==> ends_in_parent_dir(#[trigger] items[i]@) || starts_with(
                items[i]@,
                root,
            ),
{
    assert forall|i: int| 0 <= i < items.len() implies ends_in_parent_dir(#[trigger] items[i]@)
        || starts_with(items[i]@, root) by {
        assert(shown[i] == items[i]@);
    }
}

/// Moving down and then up, or up and then down, comes back to the same
/// entry.
pub proof fn law_next_previous_inverse(sel: nat, len: nat)
    requires
        sel < len,
    ensures
        previous_index(next_index(sel, len), len) == sel,
        next_index(previous_index(sel, len), len) == sel,
{
    if sel + 1 < len {
        vstd::arithmetic::div_mod::lemma_small_mod((sel + 1) as nat, len);
    } else {
        vstd::arithmetic::div_mod::lemma_mod_self_0(len as int);
    }
    if sel > 0 {
        vstd::arithmetic::div_mod::lemma_small_mod(sel, len);
    } else {
        vstd::arithmetic::div_mod::lemma_mod_self_0(len as int);
    }
}

proof fn lemma_next_iterated(sel: nat, len: nat, k: nat)
    requires
        sel < len,
    ensures
        next_iterated(sel, len, k) == ((sel + k) as int) % (len as int),
    decreases k,
{
    if k == 0 {
        vstd::arithmetic::div_mod::lemma_small_mod(sel, len);
    } else {
        lemma_next_iterated(sel, len, (k - 1) as nat);
        let a = sel + k - 1;
        vstd::arithmetic::div_mod::lemma_add_mod_noop(a, 1, len as int);
        vstd::arithmetic::div_mod::lemma_add_mod_noop((a % (len as int)) as int, 1, len as int);
        vstd::arithmetic::div_mod::lemma_mod_twice(a, len as int);
    }
}

/// Moving down as many times as there are entries comes back to the same
/// entry.
pub proof fn law_next_cycles(sel: nat, len: nat)
    requires
        sel < len,
    ensures
        next_iterated(sel, len, len) == sel,
{
    lemma_next_iterated(sel, len, len);
    vstd::arithmetic::div_mod::lemma_mod_add_multiples_vanish(sel as int, len as int);
    vstd::arithmetic::div_mod::lemma_small_mod(sel, len);
}

/// Opening an entry of the directory shown and then going back returns to
/// that directory.
pub proof fn law_back_after_entering(before: App, after: App, name: Seq<char>)
    requires
        before.wf(),
        is_entry_name(name),
        after.current_dir@ == join(before.current_dir@, name),
        after.root_dir == before.root_dir,
        !after.show_recent,
    ensures
        after.go_back_spec() matches Some(q) && path_eq(q, before.current_dir@),
{
    lemma_parent_of_join(before.current_dir@, name);
}

/// Entering `..` in a directory strictly inside the root opens the
/// directory's parent, which lies inside the root too. (A root with no
/// components, the empty path, is left out: inside it lies `/`, which has
/// no parent.)
pub proof fn law_up_entry_opens_parent(app: App)
    requires
        app.wf(),
        !app.show_recent,
        app.selected_index < app.items@.len(),
        ends_in_parent_dir(app.items@[app.selected_index as int]@),
        !path_eq(app.current_dir@, app.root_dir@),
        components(app.root_dir@).len() > 0,
    ensures
        parent(app.current_dir@) matches Some(q) && app.enter_spec() == EnterStep::OpenDirectory(q)
            && components(q) == components(app.current_dir@).drop_last(),
{
    let cc = components(app.current_dir@);
    let cr = components(app.root_dir@);
    assert(cc.len() > cr.len()) by {
        if cc.len() == cr.len() {
            assert(cc.subrange(0, cr.len() as int) =~= cc);
        }
    }
    assert(cc != seq![Component::RootDir]) by {
        if cc == seq![Component::RootDir] {
            assert(cc.len() == 1);
        }
    }
    lemma_parent_components(app.current_dir@);
    let q = parent(app.current_dir@).unwrap();
    assert(components(q).subrange(0, cr.len() as int) =~= cc.subrange(0, cr.len() as int));
    assert(app.within_root(q));
}

/// What entering does, by what the selection points at. In the recent
/// list it sets exactly the selected recent wallpaper, and nothing when the
/// selection is past the list's end. In a directory it opens the selected
/// entry when that is not `..`, and does nothing when the selection is past
/// the end.
pub proof fn law_enter_targets(app: App)
    ensures
        app.show_recent && app.selected_index < app.recent_wallpapers@.len() ==> app.enter_spec()
            == EnterStep::SetWallpaper(Some(app.recent_wallpapers@[app.selected_index as int]@)),
        app.show_recent && app.selected_index >= app.recent_wallpapers@.len() ==> app.enter_spec()
            == EnterStep::SetWallpaper(None),
        !app.show_recent && app.selected_index < app.items@.len() && !ends_in_parent_dir(
            app.items@[app.selected_index as int]@,
        ) ==> app.enter_spec() == EnterStep::OpenDirectory(
            app.items@[app.selected_index as int]@,
        ),
        !app.show_recent && app.selected_index >= app.items@.len() ==> app.enter_spec()
            == EnterStep::Stay,
{
}

proof fn lemma_contains_without(favs: Seq<Seq<char>>, p: Seq<char>, q: Seq<char>)
    ensures
        contains_path(without_path(favs, p), q) == (!path_eq(q, p) && contains_path(favs, q)),
    decreases favs.len(),
{
    if favs.len() > 0 {
        let rest = favs.drop_last();
        lemma_contains_without(rest, p, q);
        let w = without_path(favs, p);
        let wr = without_path(rest, p);
        if contains_path(w, q) {
            let k = choose|k: int| 0 <= k < w.len() && path_eq(#[trigger] w[k], q);
            if k < wr.len() {
                assert(w[k] == wr[k]);
                let j = choose|j: int| 0 <= j < rest.len() && path_eq(#[trigger] rest[j], q);
                assert(favs[j] == rest[j]);
            } else {
                assert(w[k] == favs.last());
                assert(favs[favs.len() - 1] == favs.last());
            }
        }
        if !path_eq(q, p) && contains_path(favs, q) {
            let j = choose|j: int| 0 <= j < favs.len() && path_eq(#[trigger] favs[j], q);
            if j < rest.len() {
                assert(rest[j] == favs[j]);
                let k = choose|k: int| 0 <= k < wr.len() && path_eq(#[trigger] wr[k], q);
                assert(w[k] == wr[k]);
            } else {
                assert(favs[j] == favs.last());
                assert(w[wr.len() as int] == favs.last());
            }
        }
    }
}

proof fn lemma_contains_push(favs: Seq<Seq<char>>, p: Seq<char>, q: Seq<char>)
    ensures
        contains_path(favs.push(p), q) == (contains_path(favs, q) || path_eq(p, q)),
{
    let f = favs.push(p);
    if contains_path(favs, q) {
        let j = choose|j: int| 0 <= j < favs.len() && path_eq(#[trigger] favs[j], q);
        assert(f[j] == favs[j]);
    }
    if path_eq(p, q) {
        assert(f[favs.len() as int] == p);
    }
    if contains_path(f, q) {
        let k = choose|k: int| 0 <= k < f.len() && path_eq(#[trigger] f[k], q);
        if k < favs.len() {
            assert(f[k] == favs[k]);
        }
    }
}

proof fn lemma_contains_same_path(favs: Seq<Seq<char>>, p: Seq<char>, q: Seq<char>)
    requires
        path_eq(p, q),
    ensures
        contains_path(favs, p) == contains_path(favs, q),
{
    if contains_path(favs, p) {
        let j = choose|j: int| 0 <= j < favs.len() && path_eq(#[trigger] favs[j], p);
        assert(path_eq(favs[j], q));
    }
    if contains_path(favs, q) {
        let j = choose|j: int| 0 <= j < favs.len() && path_eq(#[trigger] favs[j], q);
        assert(path_eq(favs[j], p));
    }
}

/// Toggling `p` flips whether `p` (and every path equal to it) is a
/// favourite and leaves every other path as it was.
pub proof fn law_toggle_flips(favs: Seq<Seq<char>>, p: Seq<char>, q: Seq<char>)
    ensures
        contains_path(toggled(favs, p), q) == if path_eq(q, p) {
            !contains_path(favs, p)
        } else {
            contains_path(favs, q)
        },
{
    if contains_path(favs, p) {
        lemma_contains_without(favs, p, q);
    } else {
        lemma_contains_push(favs, p, q);
        if path_eq(q, p) {
            lemma_contains_same_path(favs, p, q);
        }
    }
}

/// Toggling a path twice leaves every path a favourite exactly when it was
/// one before.
pub proof fn law_toggle_twice_restores(favs: Seq<Seq<char>>, p: Seq<char>, q: Seq<char>)
    ensures
        contains_path(toggled(toggled(favs, p), p), q) == contains_path(favs, q),
{
    law_toggle_flips(favs, p, q);
    law_toggle_flips(toggled(favs, p), p, q);
    law_toggle_flips(favs, p, p);
    if path_eq(q, p) {
        lemma_contains_same_path(favs, p, q);
    }
}

proof fn lemma_without_absent(favs: Seq<Seq<char>>, p: Seq<char>)
    requires
        !contains_path(favs, p),
    ensures
        without_path(favs, p) == favs,
    decreases favs.len(),
{
    if favs.len() > 0 {
        let rest = favs.drop_last();
        assert(!contains_path(rest, p)) by {
            if contains_path(rest, p) {
                let j = choose|j: int| 0 <= j < rest.len() && path_eq(#[trigger] rest[j], p);
                assert(favs[j] == rest[j]);
            }
        }
        lemma_without_absent(rest, p);
        assert(!path_eq(favs.last(), p)) by {
            assert(favs[favs.len() - 1] == favs.last());
        }
        assert(rest.push(favs.last()) =~= favs);
    }
}

/// Adding a path that was not a favourite and then removing it gives back
/// exactly the favourites there were.
pub proof fn law_add_then_remove_restores(favs: Seq<Seq<char>>, p: Seq<char>)
    requires
        !contains_path(favs, p),
    ensures
        toggled(toggled(favs, p), p) == favs,
{
    let f = favs.push(p);
    assert(contains_path(f, p)) by {
        assert(f[favs.len() as int] == p);
    }
    assert(f.drop_last() =~= favs);
    lemma_without_absent(favs, p);
}

} // verus!
