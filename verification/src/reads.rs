use vstd::prelude::*;

use crate::catalog::Catalog;
use crate::date::Date;
use crate::date::date_key;
use crate::filters::AlbumFilter;
use crate::filters::all_of_passes;
use crate::filters::apply_date_range_filter;
use crate::filters::apply_genre_filter;
use crate::filters::apply_mood_filter;
use crate::filters::apply_pagination;
use crate::filters::apply_rating_filter;
use crate::filters::date_range_passes;
use crate::filters::paginate;
use crate::filters::rating_passes;
use crate::filters::seq_views;
use crate::lookup::find_first;
use crate::lookup::find_genre_by_id;
use crate::lookup::find_mood_by_id;
use crate::lookup::genre_ids;
use crate::lookup::genre_names;
use crate::lookup::junction_contains;
use crate::lookup::lemma_find_first;
use crate::lookup::mood_ids;
use crate::lookup::mood_names;
use crate::sorting::SortKey;
use crate::sorting::lemma_sort_by_key_spec_props;
use crate::sorting::sort_by_key;
use crate::sorting::sort_by_key_spec;
use crate::tracks::lemma_filter_push;
use crate::tracks::track_views;
use crate::tracks::track_views_spec;
use crate::types::Album;
use crate::types::AppError;
use crate::types::Artist;
use crate::types::Genre;
use crate::types::InsertedAlbum;
use crate::types::Mood;
use crate::types::TrackRow;
use crate::types::clone_opt_string;

verus! {

/// The artist rows linked to the album, in artist-table order (the table
/// is duplicate-free, so this is a set).
pub open spec fn album_artist_rows(c: Catalog, album_id: u128) -> Seq<Artist> {
    c.artists@.filter(|a: Artist| c.album_artists@.contains((album_id, a.id)))
}

/// The genre rows linked to the album, in genre-table order.
pub open spec fn album_genre_rows(c: Catalog, album_id: u128) -> Seq<Genre> {
    c.genres@.filter(|g: Genre| c.album_genres@.contains((album_id, g.id)))
}

/// The mood rows linked to the album, in mood-table order.
pub open spec fn album_mood_rows(c: Catalog, album_id: u128) -> Seq<Mood> {
    c.moods@.filter(|m: Mood| c.album_moods@.contains((album_id, m.id)))
}

/// The track rows owned by the album, in table order.
pub open spec fn album_track_rows(c: Catalog, album_id: u128) -> Seq<TrackRow> {
    c.tracks@.filter(|t: TrackRow| t.album_id == album_id)
}

/// What a correct nested view of the stored album row `al` looks like:
/// its scalar fields, its related rows folded into collections, and its
/// tracks ordered by track number.  An album with nothing linked carries
/// empty collections.
pub open spec fn album_view_matches(c: Catalog, al: InsertedAlbum, a: Album) -> bool {
    &&& a.id == al.id
    &&& a.title == al.title
    &&& a.localized_title == al.localized_title
    &&& a.date == al.date
    &&& a.url == al.url
    &&& a.rym_url == al.rym_url
    &&& a.score == al.score
    &&& a.voters == al.voters
    &&& a.modified_date == al.modified_date
    &&& a.artists@ == album_artist_rows(c, al.id)
    &&& a.genres@ == album_genre_rows(c, al.id)
    &&& a.moods@ == album_mood_rows(c, al.id)
    &&& a.tracks@ == track_views_spec(c.artists@, sort_by_key_spec(album_track_rows(c, al.id)))
}

/// The base predicate of every listing plus the optional query filters:
/// rated albums only, all-of genre and mood matching, minimum score, and
/// the release-date range.
pub open spec fn album_passes(c: Catalog, f: AlbumFilter, al: InsertedAlbum) -> bool {
    &&& al.voters != 0
    &&& all_of_passes(genre_names(album_genre_rows(c, al.id)), seq_views(f.genres@))
    &&& all_of_passes(mood_names(album_mood_rows(c, al.id)), seq_views(f.moods@))
    &&& rating_passes(al.score, f.min_rating)
    &&& date_range_passes(al.date, f.since, f.to)
}

/// A rated album linked to the given genre.
pub open spec fn genre_scope_passes(c: Catalog, genre_id: u128, al: InsertedAlbum) -> bool {
    al.voters != 0 && c.album_genres@.contains((al.id, genre_id))
}

/// A rated album linked to the given mood.
pub open spec fn mood_scope_passes(c: Catalog, mood_id: u128, al: InsertedAlbum) -> bool {
    al.voters != 0 && c.album_moods@.contains((al.id, mood_id))
}

/// A rated album linked to the given artist.
pub open spec fn artist_scope_passes(c: Catalog, artist_id: u128, al: InsertedAlbum) -> bool {
    al.voters != 0 && c.album_artists@.contains((al.id, artist_id))
}

/// A rated album released on exactly the given date.
pub open spec fn date_scope_passes(d: Date, al: InsertedAlbum) -> bool {
    al.voters != 0 && al.date == d
}

/// The albums that pass the query filters, in table order.
pub open spec fn filtered_albums(c: Catalog, f: AlbumFilter) -> Seq<InsertedAlbum> {
    c.albums@.filter(|al: InsertedAlbum| album_passes(c, f, al))
}

/// The rated albums of one genre, in table order.
pub open spec fn genre_albums(c: Catalog, genre_id: u128) -> Seq<InsertedAlbum> {
    c.albums@.filter(|al: InsertedAlbum| genre_scope_passes(c, genre_id, al))
}

/// The rated albums of one mood, in table order.
pub open spec fn mood_albums(c: Catalog, mood_id: u128) -> Seq<InsertedAlbum> {
    c.albums@.filter(|al: InsertedAlbum| mood_scope_passes(c, mood_id, al))
}

/// The rated albums of one artist, in table order.
pub open spec fn artist_albums(c: Catalog, artist_id: u128) -> Seq<InsertedAlbum> {
    c.albums@.filter(|al: InsertedAlbum| artist_scope_passes(c, artist_id, al))
}

/// The rated albums of one release date, in table order.
pub open spec fn date_albums(c: Catalog, d: Date) -> Seq<InsertedAlbum> {
    c.albums@.filter(|al: InsertedAlbum| date_scope_passes(d, al))
}

impl SortKey for InsertedAlbum {
    /// The listing order: release date descending, ties broken by score
    /// descending (ascending in this key, which negates both).
    open spec fn key(self) -> int {
        -(date_key(self.date) * 0x10000000000000000 + (self.score - i64::MIN))
    }

    fn le_key(&self, other: &Self) -> (r: bool) {
        let ka: u32 = (self.date.year as u32) * 10000 + (self.date.month as u32) * 100 + (
        self.date.day as u32);
        let kb: u32 = (other.date.year as u32) * 10000 + (other.date.month as u32) * 100 + (
        other.date.day as u32);
        if ka != kb {
            ka > kb
        } else {
            self.score >= other.score
        }
    }
}

/// What the listing key encodes: an album sorts before another exactly
/// when its release date is later, or the dates tie and its score is at
/// least the other's.
pub proof fn lemma_album_order(a: InsertedAlbum, b: InsertedAlbum)
    ensures
        a.key() <= b.key() <==> (date_key(a.date) > date_key(b.date) || (date_key(a.date)
            == date_key(b.date) && a.score >= b.score)),
{
}

/// Every row of one page of a sorted, filtered listing passes the filter.
pub proof fn lemma_page_of_sorted_filter<T: SortKey>(
    s: Seq<T>,
    pred: spec_fn(T) -> bool,
    page: int,
    limit: int,
)
    requires
        limit >= 0,
    ensures
        forall|k: int|
            0 <= k < paginate(sort_by_key_spec(s.filter(pred)), page, limit).len() ==> pred(
                #[trigger] paginate(sort_by_key_spec(s.filter(pred)), page, limit)[k],
            ),
{
    broadcast use vstd::seq_lib::group_filter_ensures;

    let filt = s.filter(pred);
    lemma_sort_by_key_spec_props(filt);
    let sorted = sort_by_key_spec(filt);
    filt.to_multiset_ensures();
    sorted.to_multiset_ensures();
    crate::filters::lemma_paginate_elements(sorted, page, limit);
    let pg = paginate(sorted, page, limit);
    assert forall|k: int| 0 <= k < pg.len() implies pred(#[trigger] pg[k]) by {
        assert(sorted.contains(pg[k]));
        assert(sorted.to_multiset().count(pg[k]) > 0);
        assert(filt.contains(pg[k]));
        let w = choose|w: int| 0 <= w < filt.len() && filt[w] == pg[k];
        assert(pred(filt[w]));
    }
}

impl Catalog {
    /// The artist rows linked to an album, cloned out of the table.
    fn collect_album_artists(&self, album_id: u128) -> (out: Vec<Artist>)
        ensures
            out@ == album_artist_rows(*self, album_id),
    {
        let mut out: Vec<Artist> = Vec::new();
        let n = self.artists.len();
        proof {
            assert(self.artists@.take(0) =~= Seq::<Artist>::empty());
            assert(out@ =~= self.artists@.take(0).filter(
                |a: Artist| self.album_artists@.contains((album_id, a.id)),
            ));
        }
        for i in 0..n
            invariant
                n == self.artists@.len(),
                out@ =~= self.artists@.take(i as int).filter(
                    |a: Artist| self.album_artists@.contains((album_id, a.id)),
                ),
        {
            proof {
                lemma_filter_push(
                    self.artists@.take(i as int),
                    self.artists@[i as int],
                    |a: Artist| self.album_artists@.contains((album_id, a.id)),
                );
                assert(self.artists@.take(i as int).push(self.artists@[i as int])
                    =~= self.artists@.take(i as int + 1));
            }
            if junction_contains(&self.album_artists, album_id, self.artists[i].id) {
                out.push(self.artists[i].clone());
            }
        }
        proof {
            assert(self.artists@.take(n as int) =~= self.artists@);
        }
        out
    }

    /// The genre rows linked to an album, cloned out of the table.
    fn collect_album_genres(&self, album_id: u128) -> (out: Vec<Genre>)
        ensures
            out@ == album_genre_rows(*self, album_id),
    {
        let mut out: Vec<Genre> = Vec::new();
        let n = self.genres.len();
        proof {
            assert(self.genres@.take(0) =~= Seq::<Genre>::empty());
            assert(out@ =~= self.genres@.take(0).filter(
                |g: Genre| self.album_genres@.contains((album_id, g.id)),
            ));
        }
        for i in 0..n
            invariant
                n == self.genres@.len(),
                out@ =~= self.genres@.take(i as int).filter(
                    |g: Genre| self.album_genres@.contains((album_id, g.id)),
                ),
        {
            proof {
                lemma_filter_push(
                    self.genres@.take(i as int),
                    self.genres@[i as int],
                    |g: Genre| self.album_genres@.contains((album_id, g.id)),
                );
                assert(self.genres@.take(i as int).push(self.genres@[i as int])
                    =~= self.genres@.take(i as int + 1));
            }
            if junction_contains(&self.album_genres, album_id, self.genres[i].id) {
                out.push(self.genres[i].clone());
            }
        }
        proof {
            assert(self.genres@.take(n as int) =~= self.genres@);
        }
        out
    }

    /// The mood rows linked to an album, cloned out of the table.
    fn collect_album_moods(&self, album_id: u128) -> (out: Vec<Mood>)
        ensures
            out@ == album_mood_rows(*self, album_id),
    {
        let mut out: Vec<Mood> = Vec::new();
        let n = self.moods.len();
        proof {
            assert(self.moods@.take(0) =~= Seq::<Mood>::empty());
            assert(out@ =~= self.moods@.take(0).filter(
                |m: Mood| self.album_moods@.contains((album_id, m.id)),
            ));
        }
        for i in 0..n
            invariant
                n == self.moods@.len(),
                out@ =~= self.moods@.take(i as int).filter(
                    |m: Mood| self.album_moods@.contains((album_id, m.id)),
                ),
        {
            proof {
                lemma_filter_push(
                    self.moods@.take(i as int),
                    self.moods@[i as int],
                    |m: Mood| self.album_moods@.contains((album_id, m.id)),
                );
                assert(self.moods@.take(i as int).push(self.moods@[i as int])
                    =~= self.moods@.take(i as int + 1));
            }
            if junction_contains(&self.album_moods, album_id, self.moods[i].id) {
                out.push(self.moods[i].clone());
            }
        }
        proof {
            assert(self.moods@.take(n as int) =~= self.moods@);
        }
        out
    }

    /// The track rows owned by an album, cloned out of the table.
    fn collect_album_tracks(&self, album_id: u128) -> (out: Vec<TrackRow>)
        ensures
            out@ == album_track_rows(*self, album_id),
    {
        let mut out: Vec<TrackRow> = Vec::new();
        let n = self.tracks.len();
        proof {
            assert(self.tracks@.take(0) =~= Seq::<TrackRow>::empty());
            assert(out@ =~= self.tracks@.take(0).filter(|t: TrackRow| t.album_id == album_id));
        }
        for i in 0..n
            invariant
                n == self.tracks@.len(),
                out@ =~= self.tracks@.take(i as int).filter(
                    |t: TrackRow| t.album_id == album_id,
                ),
        {
            proof {
                lemma_filter_push(
                    self.tracks@.take(i as int),
                    self.tracks@[i as int],
                    |t: TrackRow| t.album_id == album_id,
                );
                assert(self.tracks@.take(i as int).push(self.tracks@[i as int])
                    =~= self.tracks@.take(i as int + 1));
            }
            if self.tracks[i].album_id == album_id {
                out.push(self.tracks[i].clone());
            }
        }
        proof {
            assert(self.tracks@.take(n as int) =~= self.tracks@);
        }
        out
    }

    /// The names of the genres linked to an album, in table order.
    fn collect_album_genre_names(&self, album_id: u128) -> (out: Vec<String>)
        ensures
            seq_views(out@) == genre_names(album_genre_rows(*self, album_id)),
    {
        let rows = self.collect_album_genres(album_id);
        let mut out: Vec<String> = Vec::new();
        let n = rows.len();
        proof {
            assert(seq_views(out@) =~= genre_names(rows@).take(0));
        }
        for i in 0..n
            invariant
                n == rows@.len(),
                seq_views(out@) =~= genre_names(rows@).take(i as int),
        {
            out.push(rows[i].name.clone());
            proof {
                assert(genre_names(rows@).take(i as int).push(genre_names(rows@)[i as int])
                    =~= genre_names(rows@).take(i as int + 1));
                assert(seq_views(out@) =~= genre_names(rows@).take(i as int + 1));
            }
        }
        proof {
            assert(genre_names(rows@).take(n as int) =~= genre_names(rows@));
        }
        out
    }

    /// The names of the moods linked to an album, in table order.
    fn collect_album_mood_names(&self, album_id: u128) -> (out: Vec<String>)
        ensures
            seq_views(out@) == mood_names(album_mood_rows(*self, album_id)),
    {
        let rows = self.collect_album_moods(album_id);
        let mut out: Vec<String> = Vec::new();
        let n = rows.len();
        proof {
            assert(seq_views(out@) =~= mood_names(rows@).take(0));
        }
        for i in 0..n
            invariant
                n == rows@.len(),
                seq_views(out@) =~= mood_names(rows@).take(i as int),
        {
            out.push(rows[i].name.clone());
            proof {
                assert(mood_names(rows@).take(i as int).push(mood_names(rows@)[i as int])
                    =~= mood_names(rows@).take(i as int + 1));
                assert(seq_views(out@) =~= mood_names(rows@).take(i as int + 1));
            }
        }
        proof {
            assert(mood_names(rows@).take(n as int) =~= mood_names(rows@));
        }
        out
    }

    /// Assembles the nested view of one stored album row.
    pub fn build_album_view(&self, al: &InsertedAlbum) -> (a: Album)
        ensures
            album_view_matches(*self, *al, a),
    {
        let artists = self.collect_album_artists(al.id);
        let genres = self.collect_album_genres(al.id);
        let moods = self.collect_album_moods(al.id);
        let mut trows = self.collect_album_tracks(al.id);
        sort_by_key(&mut trows);
        let tracks = track_views(&self.artists, &trows);
        Album {
            id: al.id,
            title: al.title.clone(),
            localized_title: clone_opt_string(&al.localized_title),
            artists,
            date: al.date,
            genres,
            moods,
            tracks,
            url: al.url.clone(),
            rym_url: clone_opt_string(&al.rym_url),
            score: al.score,
            voters: al.voters,
            modified_date: al.modified_date,
        }
    }

    /// Decides the full listing predicate for one stored album row.
    fn album_passes_exec(&self, al: &InsertedAlbum, f: &AlbumFilter) -> (r: bool)
        ensures
            r == album_passes(*self, *f, *al),
    {
        if al.voters == 0 {
            return false;
        }
        let gnames = self.collect_album_genre_names(al.id);
        if !apply_genre_filter(&gnames, &f.genres) {
            return false;
        }
        let mnames = self.collect_album_mood_names(al.id);
        if !apply_mood_filter(&mnames, &f.moods) {
            return false;
        }
        if !apply_rating_filter(al.score, f.min_rating) {
            return false;
        }
        apply_date_range_filter(al.date, f.since, f.to)
    }

    /// Sorts the passing rows, keeps the requested page, and assembles
    /// the nested view of each kept row, in order.
    fn finish_listing(&self, passing: Vec<InsertedAlbum>, page: u64, limit: u64) -> (out: Vec<
        Album,
    >)
        ensures
            ({
                let rows = paginate(sort_by_key_spec(passing@), page as int, limit as int);
                &&& out@.len() == rows.len()
                &&& forall|k: int|
                    0 <= k < rows.len() ==> album_view_matches(
                        *self,
                        rows[k],
                        #[trigger] out@[k],
                    )
            }),
    {
        let ghost orig = passing@;
        let mut rows = passing;
        sort_by_key(&mut rows);
        let paged = apply_pagination(rows, page, limit);
        let mut out: Vec<Album> = Vec::new();
        let n = paged.len();
        for i in 0..n
            invariant
                n == paged@.len(),
                paged@ == paginate(sort_by_key_spec(orig), page as int, limit as int),
                out@.len() == i,
                forall|k: int|
                    0 <= k < i ==> album_view_matches(*self, paged@[k], #[trigger] out@[k]),
        {
            let a = self.build_album_view(&paged[i]);
            out.push(a);
        }
        out
    }

    /// The filtered, ordered, paginated album listing: rated albums that
    /// pass every given filter, ordered by release date then score (both
    /// descending), one page of them, as nested views.
    pub fn get_albums(&self, page: u64, limit: u64, filters: &AlbumFilter) -> (out: Vec<Album>)
        ensures
            ({
                let rows = paginate(
                    sort_by_key_spec(filtered_albums(*self, *filters)),
                    page as int,
                    limit as int,
                );
                &&& out@.len() == rows.len()
                &&& forall|k: int|
                    0 <= k < rows.len() ==> album_view_matches(
                        *self,
                        rows[k],
                        #[trigger] out@[k],
                    )
            }),
            forall|k: int| 0 <= k < out@.len() ==> (#[trigger] out@[k]).voters != 0,
    {
        let mut passing: Vec<InsertedAlbum> = Vec::new();
        let n = self.albums.len();
        proof {
            assert(self.albums@.take(0) =~= Seq::<InsertedAlbum>::empty());
            assert(passing@ =~= self.albums@.take(0).filter(
                |al: InsertedAlbum| album_passes(*self, *filters, al),
            ));
        }
        for i in 0..n
            invariant
                n == self.albums@.len(),
                passing@ =~= self.albums@.take(i as int).filter(
                    |al: InsertedAlbum| album_passes(*self, *filters, al),
                ),
        {
            let ok = self.album_passes_exec(&self.albums[i], filters);
            proof {
                lemma_filter_push(
                    self.albums@.take(i as int),
                    self.albums@[i as int],
                    |al: InsertedAlbum| album_passes(*self, *filters, al),
                );
                assert(self.albums@.take(i as int).push(self.albums@[i as int])
                    =~= self.albums@.take(i as int + 1));
            }
            if ok {
                passing.push(self.albums[i].clone());
            }
        }
        proof {
            assert(self.albums@.take(n as int) =~= self.albums@);
            assert(passing@ == filtered_albums(*self, *filters));
        }
        let out = self.finish_listing(passing, page, limit);
        proof {
            lemma_page_of_sorted_filter(
                self.albums@,
                |al: InsertedAlbum| album_passes(*self, *filters, al),
                page as int,
                limit as int,
            );
            let rows = paginate(
                sort_by_key_spec(filtered_albums(*self, *filters)),
                page as int,
                limit as int,
            );
            assert forall|k: int| 0 <= k < out@.len() implies (#[trigger] out@[k]).voters
                != 0 by {
                assert(album_passes(*self, *filters, rows[k]));
                assert(album_view_matches(*self, rows[k], out@[k]));
            }
        }
        out
    }

    /// The paginated listing of one genre's rated albums.
    pub fn get_albums_for_genre(&self, genre_id: u128, page: u64, limit: u64) -> (out: Vec<Album>)
        ensures
            ({
                let rows = paginate(
                    sort_by_key_spec(genre_albums(*self, genre_id)),
                    page as int,
                    limit as int,
                );
                &&& out@.len() == rows.len()
                &&& forall|k: int|
                    0 <= k < rows.len() ==> album_view_matches(
                        *self,
                        rows[k],
                        #[trigger] out@[k],
                    )
            }),
            forall|k: int| 0 <= k < out@.len() ==> (#[trigger] out@[k]).voters != 0,
    {
        let mut passing: Vec<InsertedAlbum> = Vec::new();
        let n = self.albums.len();
        proof {
            assert(self.albums@.take(0) =~= Seq::<InsertedAlbum>::empty());
            assert(passing@ =~= self.albums@.take(0).filter(
                |al: InsertedAlbum| genre_scope_passes(*self, genre_id, al),
            ));
        }
        for i in 0..n
            invariant
                n == self.albums@.len(),
                passing@ =~= self.albums@.take(i as int).filter(
                    |al: InsertedAlbum| genre_scope_passes(*self, genre_id, al),
                ),
        {
            let al = &self.albums[i];
            let ok = al.voters != 0 && junction_contains(&self.album_genres, al.id, genre_id);
            proof {
                lemma_filter_push(
                    self.albums@.take(i as int),
                    self.albums@[i as int],
                    |al: InsertedAlbum| genre_scope_passes(*self, genre_id, al),
                );
                assert(self.albums@.take(i as int).push(self.albums@[i as int])
                    =~= self.albums@.take(i as int + 1));
            }
            if ok {
                passing.push(self.albums[i].clone());
            }
        }
        proof {
            assert(self.albums@.take(n as int) =~= self.albums@);
            assert(passing@ == genre_albums(*self, genre_id));
        }
        let out = self.finish_listing(passing, page, limit);
        proof {
            lemma_page_of_sorted_filter(
                self.albums@,
                |al: InsertedAlbum| genre_scope_passes(*self, genre_id, al),
                page as int,
                limit as int,
            );
            let rows = paginate(
                sort_by_key_spec(genre_albums(*self, genre_id)),
                page as int,
                limit as int,
            );
            assert forall|k: int| 0 <= k < out@.len() implies (#[trigger] out@[k]).voters
                != 0 by {
                assert(genre_scope_passes(*self, genre_id, rows[k]));
                assert(album_view_matches(*self, rows[k], out@[k]));
            }
        }
        out
    }

    /// The paginated listing of one mood's rated albums.
    pub fn get_albums_for_mood(&self, mood_id: u128, page: u64, limit: u64) -> (out: Vec<Album>)
        ensures
            ({
                let rows = paginate(
                    sort_by_key_spec(mood_albums(*self, mood_id)),
                    page as int,
                    limit as int,
                );
                &&& out@.len() == rows.len()
                &&& forall|k: int|
                    0 <= k < rows.len() ==> album_view_matches(
                        *self,
                        rows[k],
                        #[trigger] out@[k],
                    )
            }),
            forall|k: int| 0 <= k < out@.len() ==> (#[trigger] out@[k]).voters != 0,
    {
        let mut passing: Vec<InsertedAlbum> = Vec::new();
        let n = self.albums.len();
        proof {
            assert(self.albums@.take(0) =~= Seq::<InsertedAlbum>::empty());
            assert(passing@ =~= self.albums@.take(0).filter(
                |al: InsertedAlbum| mood_scope_passes(*self, mood_id, al),
            ));
        }
        for i in 0..n
            invariant
                n == self.albums@.len(),
                passing@ =~= self.albums@.take(i as int).filter(
                    |al: InsertedAlbum| mood_scope_passes(*self, mood_id, al),
                ),
        {
            let al = &self.albums[i];
            let ok = al.voters != 0 && junction_contains(&self.album_moods, al.id, mood_id);
            proof {
                lemma_filter_push(
                    self.albums@.take(i as int),
                    self.albums@[i as int],
                    |al: InsertedAlbum| mood_scope_passes(*self, mood_id, al),
                );
                assert(self.albums@.take(i as int).push(self.albums@[i as int])
                    =~= self.albums@.take(i as int + 1));
            }
            if ok {
                passing.push(self.albums[i].clone());
            }
        }
        proof {
            assert(self.albums@.take(n as int) =~= self.albums@);
            assert(passing@ == mood_albums(*self, mood_id));
        }
        let out = self.finish_listing(passing, page, limit);
        proof {
            lemma_page_of_sorted_filter(
                self.albums@,
                |al: InsertedAlbum| mood_scope_passes(*self, mood_id, al),
                page as int,
                limit as int,
            );
            let rows = paginate(
                sort_by_key_spec(mood_albums(*self, mood_id)),
                page as int,
                limit as int,
            );
            assert forall|k: int| 0 <= k < out@.len() implies (#[trigger] out@[k]).voters
                != 0 by {
                assert(mood_scope_passes(*self, mood_id, rows[k]));
                assert(album_view_matches(*self, rows[k], out@[k]));
            }
        }
        out
    }

    /// The paginated listing of one artist's rated albums.
    pub fn get_albums_for_artist(&self, artist_id: u128, page: u64, limit: u64) -> (out: Vec<
        Album,
    >)
        ensures
            ({
                let rows = paginate(
                    sort_by_key_spec(artist_albums(*self, artist_id)),
                    page as int,
                    limit as int,
                );
                &&& out@.len() == rows.len()
                &&& forall|k: int|
                    0 <= k < rows.len() ==> album_view_matches(
                        *self,
                        rows[k],
                        #[trigger] out@[k],
                    )
            }),
            forall|k: int| 0 <= k < out@.len() ==> (#[trigger] out@[k]).voters != 0,
    {
        let mut passing: Vec<InsertedAlbum> = Vec::new();
        let n = self.albums.len();
        proof {
            assert(self.albums@.take(0) =~= Seq::<InsertedAlbum>::empty());
            assert(passing@ =~= self.albums@.take(0).filter(
                |al: InsertedAlbum| artist_scope_passes(*self, artist_id, al),
            ));
        }
        for i in 0..n
            invariant
                n == self.albums@.len(),
                passing@ =~= self.albums@.take(i as int).filter(
                    |al: InsertedAlbum| artist_scope_passes(*self, artist_id, al),
                ),
        {
            let al = &self.albums[i];
            let ok = al.voters != 0 && junction_contains(&self.album_artists, al.id, artist_id);
            proof {
                lemma_filter_push(
                    self.albums@.take(i as int),
                    self.albums@[i as int],
                    |al: InsertedAlbum| artist_scope_passes(*self, artist_id, al),
                );
                assert(self.albums@.take(i as int).push(self.albums@[i as int])
                    =~= self.albums@.take(i as int + 1));
            }
            if ok {
                passing.push(self.albums[i].clone());
            }
        }
        proof {
            assert(self.albums@.take(n as int) =~= self.albums@);
            assert(passing@ == artist_albums(*self, artist_id));
        }
        let out = self.finish_listing(passing, page, limit);
        proof {
            lemma_page_of_sorted_filter(
                self.albums@,
                |al: InsertedAlbum| artist_scope_passes(*self, artist_id, al),
                page as int,
                limit as int,
            );
            let rows = paginate(
                sort_by_key_spec(artist_albums(*self, artist_id)),
                page as int,
                limit as int,
            );
            assert forall|k: int| 0 <= k < out@.len() implies (#[trigger] out@[k]).voters
                != 0 by {
                assert(artist_scope_passes(*self, artist_id, rows[k]));
                assert(album_view_matches(*self, rows[k], out@[k]));
            }
        }
        out
    }

    /// The paginated listing of the rated albums released on one date.
    /// With the date fixed, the usual ordering reduces to score
    /// descending.
    pub fn get_albums_for_date(&self, date: Date, page: u64, limit: u64) -> (out: Vec<Album>)
        ensures
            ({
                let rows = paginate(
                    sort_by_key_spec(date_albums(*self, date)),
                    page as int,
                    limit as int,
                );
                &&& out@.len() == rows.len()
                &&& forall|k: int|
                    0 <= k < rows.len() ==> album_view_matches(
                        *self,
                        rows[k],
                        #[trigger] out@[k],
                    )
            }),
            forall|k: int| 0 <= k < out@.len() ==> (#[trigger] out@[k]).voters != 0,
    {
        let mut passing: Vec<InsertedAlbum> = Vec::new();
        let n = self.albums.len();
        proof {
            assert(self.albums@.take(0) =~= Seq::<InsertedAlbum>::empty());
            assert(passing@ =~= self.albums@.take(0).filter(
                |al: InsertedAlbum| date_scope_passes(date, al),
            ));
        }
        for i in 0..n
            invariant
                n == self.albums@.len(),
                passing@ =~= self.albums@.take(i as int).filter(
                    |al: InsertedAlbum| date_scope_passes(date, al),
                ),
        {
            let al = &self.albums[i];
            let ok = al.voters != 0 && al.date == date;
            proof {
                lemma_filter_push(
                    self.albums@.take(i as int),
                    self.albums@[i as int],
                    |al: InsertedAlbum| date_scope_passes(date, al),
                );
                assert(self.albums@.take(i as int).push(self.albums@[i as int])
                    =~= self.albums@.take(i as int + 1));
            }
            if ok {
                passing.push(self.albums[i].clone());
            }
        }
        proof {
            assert(self.albums@.take(n as int) =~= self.albums@);
            assert(passing@ == date_albums(*self, date));
        }
        let out = self.finish_listing(passing, page, limit);
        proof {
            lemma_page_of_sorted_filter(
                self.albums@,
                |al: InsertedAlbum| date_scope_passes(date, al),
                page as int,
                limit as int,
            );
            let rows = paginate(
                sort_by_key_spec(date_albums(*self, date)),
                page as int,
                limit as int,
            );
            assert forall|k: int| 0 <= k < out@.len() implies (#[trigger] out@[k]).voters
                != 0 by {
                assert(date_scope_passes(date, rows[k]));
                assert(album_view_matches(*self, rows[k], out@[k]));
            }
        }
        out
    }

    /// Looks a genre up by id.
    pub fn get_genre(&self, genre_id: u128) -> (r: Result<Genre, AppError>)
        ensures
            match find_first(genre_ids(self.genres@), genre_id) {
                Some(i) => r == Ok::<Genre, AppError>(self.genres@[i]),
                None => r == Err::<Genre, AppError>(AppError::NotFound),
            },
    {
        match find_genre_by_id(&self.genres, genre_id) {
            Some(i) => {
                proof {
                    lemma_find_first(genre_ids(self.genres@), genre_id);
                }
                Ok(self.genres[i].clone())
            },
            None => Err(AppError::NotFound),
        }
    }

    /// Looks a mood up by id.
    pub fn get_mood(&self, mood_id: u128) -> (r: Result<Mood, AppError>)
        ensures
            match find_first(mood_ids(self.moods@), mood_id) {
                Some(i) => r == Ok::<Mood, AppError>(self.moods@[i]),
                None => r == Err::<Mood, AppError>(AppError::NotFound),
            },
    {
        match find_mood_by_id(&self.moods, mood_id) {
            Some(i) => {
                proof {
                    lemma_find_first(mood_ids(self.moods@), mood_id);
                }
                Ok(self.moods[i].clone())
            },
            None => Err(AppError::NotFound),
        }
    }
}

} // verus!
