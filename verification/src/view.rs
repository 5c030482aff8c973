//! Which view of the application is shown, and the selection each view holds.
use vstd::prelude::*;

verus! {

/// The views of the application, in the order they are laid out.
#[derive(Debug, PartialEq, Eq, Structural, Clone, Copy)]
pub enum View {
    Song,
    Queue,
    AllTracks,
    Albums,
    Artists,
    Genres,
    Playlists,
    Search,
    Settings,
}

/// The number of a view: its place in the layout, counting from 0.
pub open spec fn view_number(v: View) -> nat {
    match v {
        View::Song => 0,
        View::Queue => 1,
        View::AllTracks => 2,
        View::Albums => 3,
        View::Artists => 4,
        View::Genres => 5,
        View::Playlists => 6,
        View::Search => 7,
        View::Settings => 8,
    }
}

/// The view that a number turns into: the view of that number, and `Song`
/// for every number past the last view.
pub open spec fn view_from_number(n: int) -> View {
    if n == 0 {
        View::Song
    } else if n == 1 {
        View::Queue
    } else if n == 2 {
        View::AllTracks
    } else if n == 3 {
        View::Albums
    } else if n == 4 {
        View::Artists
    } else if n == 5 {
        View::Genres
    } else if n == 6 {
        View::Playlists
    } else if n == 7 {
        View::Search
    } else if n == 8 {
        View::Settings
    } else {
        View::Song
    }
}

/// The view one place to the right of `v`; `Settings` wraps round to `Song`.
pub open spec fn shifted_up(v: View) -> View {
    view_from_number(view_number(v) + 1int)
}

/// The view one place to the left of `v`; `Song` wraps round to `Settings`.
pub open spec fn shifted_down(v: View) -> View {
    if v == View::Song {
        View::Settings
    } else {
        view_from_number(view_number(v) - 1)
    }
}

impl View {
    /// The number of this view.
    pub fn to_usize(&self) -> (r: usize)
        ensures
            r == view_number(*self),
    {
        match self {
            View::Song => 0,
            View::Queue => 1,
            View::AllTracks => 2,
            View::Albums => 3,
            View::Artists => 4,
            View::Genres => 5,
            View::Playlists => 6,
            View::Search => 7,
            View::Settings => 8,
        }
    }

    /// Shifts the view up in number (moves to the right); from `Settings` it
    /// moves to `Song`.
    pub fn shift_up(&mut self)
        ensures
            *final(self) == shifted_up(*old(self)),
    {
        *self = Self::from_usize(self.to_usize() + 1);
    }

    /// Shifts the view down in number (moves to the left); from `Song` it
    /// moves to `Settings`.
    pub fn shift_down(&mut self)
        ensures
            *final(self) == shifted_down(*old(self)),
    {
        if *self == View::Song {
            *self = View::Settings;
            return;
        }
        *self = Self::from_usize(self.to_usize() - 1);
    }

    /// Turns a number into a view.
    pub fn from_usize(n: usize) -> (r: Self)
        ensures
            r == view_from_number(n as int),
    {
        match n {
            0 => View::Song,
            1 => View::Queue,
            2 => View::AllTracks,
            3 => View::Albums,
            4 => View::Artists,
            5 => View::Genres,
            6 => View::Playlists,
            7 => View::Search,
            8 => View::Settings,
            _ => View::Song,
        }
    }
}

/// Turning a view into its number and back gives the view again.
pub proof fn lemma_view_number_round_trip(v: View)
    ensures
        view_from_number(view_number(v) as int) == v,
{
}

/// Shifting up moves one number up, and from the last view back to the
/// first; shifting down moves one number down, and from the first view to
/// the last.
pub proof fn lemma_shifts_move_by_one(v: View)
    ensures
        v == View::Settings ==> shifted_up(v) == View::Song,
        v != View::Settings ==> view_number(shifted_up(v)) == view_number(v) + 1,
        v == View::Song ==> shifted_down(v) == View::Settings,
        v != View::Song ==> view_number(shifted_down(v)) == view_number(v) - 1,
{
}

/// Shifting down undoes shifting up, for every view.
pub proof fn lemma_shift_down_undoes_shift_up(v: View)
    ensures
        shifted_down(shifted_up(v)) == v,
{
}

/// Shifting up undoes shifting down, for every view.
pub proof fn lemma_shift_up_undoes_shift_down(v: View)
    ensures
        shifted_up(shifted_down(v)) == v,
{
}

/// The options offered for a track, which depend on the view it was chosen in.
#[derive(Debug, PartialEq, Eq, Structural, Clone, Copy)]
pub enum TrackMenu {
    Explorer,
    Queue,
    Playlists,
}

/// The options for a track chosen in `view`: those of the queue in the queue
/// view, those of playlists in the playlists view, and those of the explorer
/// everywhere else.
pub fn track_menu(view: View) -> (r: TrackMenu)
    ensures
        r == (if view == View::Queue {
            TrackMenu::Queue
        } else if view == View::Playlists {
            TrackMenu::Playlists
        } else {
            TrackMenu::Explorer
        }),
{
    match view {
        View::Queue => TrackMenu::Queue,
        View::Playlists => TrackMenu::Playlists,
        _ => TrackMenu::Explorer,
    }
}

/// The current view, and what is open in the views that show lists.
#[derive(Debug)]
pub struct ViewData {
    pub current: View,
    pub album: Option<String>,
    pub artist: Option<String>,
    pub playlist: Option<usize>,
    pub autoplaylist: Option<usize>,
    pub genre: Option<String>,
}

impl ViewData {
    /// The song view, with nothing open anywhere.
    pub fn new() -> (r: Self)
        ensures
            r.current == View::Song,
            r.album is None,
            r.artist is None,
            r.playlist is None,
            r.autoplaylist is None,
            r.genre is None,
    {
        ViewData {
            current: View::Song,
            album: None,
            artist: None,
            genre: None,
            playlist: None,
            autoplaylist: None,
        }
    }

    /// Opens `view`. Opening the view that is already current closes what is
    /// open in it (the artist, genre or album, or the playlist and
    /// auto-playlist); opening another view keeps every selection.
    pub fn open(&mut self, view: View)
        ensures
            final(self).current == view,
            final(self).artist == (if view == old(self).current && view == View::Artists { None } else { old(self).artist }),
            final(self).genre == (if view == old(self).current && view == View::Genres { None } else { old(self).genre }),
            final(self).album == (if view == old(self).current && view == View::Albums { None } else { old(self).album }),
            final(self).playlist == (if view == old(self).current && view == View::Playlists { None } else { old(self).playlist }),
            final(self).autoplaylist == (if view == old(self).current && view == View::Playlists { None } else { old(self).autoplaylist }),
    {
        if view == self.current {
            match view {
                View::Artists => self.artist = None,
                View::Genres => self.genre = None,
                View::Albums => self.album = None,
                View::Playlists => {
                    self.autoplaylist = None;
                    self.playlist = None;
                },
                _ => {},
            }
        }
        self.current = view;
    }
}

} // verus!
