//! The rows of the track database.
use vstd::prelude::*;

verus! {

/// A stored track.
#[derive(Debug, PartialEq, Clone)]
pub struct Track {
    pub id: Option<i32>,
    pub file: String,
    pub title: String,
    pub album: String,
    pub artist: String,
    pub genre: String,
    pub date: String,
    pub body: String,
}

/// A track to store.
#[derive(Debug, PartialEq)]
pub struct NewTrack<'a> {
    pub file: &'a str,
    pub title: &'a str,
    pub album: &'a str,
    pub artist: &'a str,
    pub genre: &'a str,
    pub date: &'a str,
    pub body: &'a str,
}

/// How often two genres were seen on the same track.
#[derive(Debug, PartialEq, Clone)]
pub struct GenreMatch {
    pub id: Option<i32>,
    pub genre1: String,
    pub genre2: String,
    pub count: i32,
}

/// A genre pairing to store.
#[derive(Debug, PartialEq)]
pub struct NewGenreMatch<'a> {
    pub genre1: &'a str,
    pub genre2: &'a str,
    pub count: i32,
}

} // verus!
