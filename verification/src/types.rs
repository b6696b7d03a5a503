use vstd::prelude::*;

use crate::date::Date;

verus! {

/// Errors surfaced by the catalog's own operations.
///
/// `NotFound` is a lookup failure (an id that no row carries).  `Constraint`
/// is a rejected write (a track listing that breaks the per-album track
/// numbering rules).  `Malformed` is a client input that does not parse (a
/// date or identifier token).
#[derive(Clone, Copy, PartialEq, Eq, Structural, Debug)]
pub enum AppError {
    NotFound,
    Constraint,
    Malformed,
}

/// A reference-vocabulary row: a genre with its unique name.
#[derive(Debug, PartialEq)]
pub struct Genre {
    pub id: u128,
    pub name: String,
}

/// A reference-vocabulary row: a mood with its unique name.
#[derive(Debug, PartialEq)]
pub struct Mood {
    pub id: u128,
    pub name: String,
}

/// An artist row: unique name plus an optional localized rendering of it,
/// refined on later registrations (last write wins).
#[derive(Debug, PartialEq)]
pub struct Artist {
    pub id: u128,
    pub name: String,
    pub localized_name: Option<String>,
}

/// An artist as supplied by a registration request.
#[derive(Debug, PartialEq)]
pub struct NewArtist {
    pub name: String,
    pub localized_name: Option<String>,
}

/// A track as supplied by a registration request.
#[derive(Debug, PartialEq)]
pub struct NewTrack {
    pub track_number: i32,
    pub title: String,
    pub localized_title: Option<String>,
    pub artist: Option<NewArtist>,
}

/// A track as presented in an album view: its position, titles, and the
/// resolved artist row if one is attached.
#[derive(Debug, PartialEq)]
pub struct Track {
    pub track_number: i32,
    pub title: String,
    pub localized_title: Option<String>,
    pub artist: Option<Artist>,
}

/// A stored track row, owned by exactly one album.
#[derive(Debug, PartialEq)]
pub struct TrackRow {
    pub album_id: u128,
    pub track_number: i32,
    pub title: String,
    pub localized_title: Option<String>,
    pub artist: Option<u128>,
}

/// A registration request: the album's scalar fields together with the
/// names of its related entities and its full track listing.
#[derive(Debug, PartialEq)]
pub struct NewAlbum {
    pub album: String,
    pub localized_title: Option<String>,
    pub artists: Vec<NewArtist>,
    pub date: Date,
    pub genres: Vec<String>,
    pub moods: Vec<String>,
    pub tracks: Vec<NewTrack>,
    pub url: String,
    pub rym_url: String,
    pub score: i64,
    pub voters: i32,
}

/// The stored album row: scalar fields only, keyed by the unique `url`.
/// `score` is the aggregate rating in fixed-point hundredths.
#[derive(Debug, PartialEq)]
pub struct InsertedAlbum {
    pub id: u128,
    pub title: String,
    pub localized_title: Option<String>,
    pub date: Date,
    pub url: String,
    pub rym_url: Option<String>,
    pub score: i64,
    pub voters: i32,
    pub modified_date: Date,
}

/// A nested album view: the scalar row joined with its related artists,
/// genres, moods and its ordered track listing.  An album with no related
/// rows carries empty collections, never missing ones.
#[derive(Debug, PartialEq)]
pub struct Album {
    pub id: u128,
    pub title: String,
    pub localized_title: Option<String>,
    pub artists: Vec<Artist>,
    pub date: Date,
    pub genres: Vec<Genre>,
    pub moods: Vec<Mood>,
    pub tracks: Vec<Track>,
    pub url: String,
    pub rym_url: Option<String>,
    pub score: i64,
    pub voters: i32,
    pub modified_date: Date,
}

/// A co-occurrence entry: a genre that shares at least one album with the
/// queried genre, and on how many albums they co-occur.
#[derive(Debug, PartialEq)]
pub struct SimilarGenre {
    pub id: u128,
    pub name: Option<String>,
    pub count: Option<u64>,
}

/// A co-occurrence entry for moods.
#[derive(Debug, PartialEq)]
pub struct SimilarMood {
    pub id: u128,
    pub name: Option<String>,
    pub count: Option<u64>,
}

/// A genre together with its co-occurrence ranking and its albums.
#[derive(Debug, PartialEq)]
pub struct GenreInfo {
    pub genre: Genre,
    pub similar_genres: Vec<SimilarGenre>,
    pub albums: Vec<Album>,
}

/// A mood together with its co-occurrence ranking and its albums.
#[derive(Debug, PartialEq)]
pub struct MoodInfo {
    pub mood: Mood,
    pub similar_moods: Vec<SimilarMood>,
    pub albums: Vec<Album>,
}

/// Raw pagination parameters as they arrive from a query string; zero
/// stands for an absent value.
#[derive(Clone, Copy, PartialEq, Eq, Structural, Debug)]
pub struct Pagination {
    pub page: i64,
    pub limit: i64,
}

impl Pagination {
    /// Applies the documented defaults: an absent (zero) page means the
    /// first page, an absent (zero) limit means 25 rows per page.
    pub fn normalized(&self) -> (r: (i64, i64))
        ensures
            r.0 == if self.page == 0 { 1int } else { self.page as int },
            r.1 == if self.limit == 0 { 25int } else { self.limit as int },
    {
        let page: i64 = if self.page == 0 { 1 } else { self.page };
        let limit: i64 = if self.limit == 0 { 25 } else { self.limit };
        (page, limit)
    }
}

impl Clone for Genre {
    fn clone(&self) -> (r: Self)
        ensures
            r == *self,
    {
        Genre { id: self.id, name: self.name.clone() }
    }
}

impl Clone for Mood {
    fn clone(&self) -> (r: Self)
        ensures
            r == *self,
    {
        Mood { id: self.id, name: self.name.clone() }
    }
}

impl Clone for Artist {
    fn clone(&self) -> (r: Self)
        ensures
            r == *self,
    {
        Artist {
            id: self.id,
            name: self.name.clone(),
            localized_name: clone_opt_string(&self.localized_name),
        }
    }
}

/// Clones an optional string, preserving the value exactly.
pub fn clone_opt_string(s: &Option<String>) -> (r: Option<String>)
    ensures
        r == *s,
{
    match s {
        Some(v) => Some(v.clone()),
        None => None,
    }
}

impl Clone for Track {
    fn clone(&self) -> (r: Self)
        ensures
            r == *self,
    {
        Track {
            track_number: self.track_number,
            title: self.title.clone(),
            localized_title: clone_opt_string(&self.localized_title),
            artist: match &self.artist {
                Some(a) => Some(a.clone()),
                None => None,
            },
        }
    }
}

impl Clone for TrackRow {
    fn clone(&self) -> (r: Self)
        ensures
            r == *self,
    {
        TrackRow {
            album_id: self.album_id,
            track_number: self.track_number,
            title: self.title.clone(),
            localized_title: clone_opt_string(&self.localized_title),
            artist: self.artist,
        }
    }
}

impl Clone for InsertedAlbum {
    fn clone(&self) -> (r: Self)
        ensures
            r == *self,
    {
        InsertedAlbum {
            id: self.id,
            title: self.title.clone(),
            localized_title: clone_opt_string(&self.localized_title),
            date: self.date,
            url: self.url.clone(),
            rym_url: clone_opt_string(&self.rym_url),
            score: self.score,
            voters: self.voters,
            modified_date: self.modified_date,
        }
    }
}

} // verus!
