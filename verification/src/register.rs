use vstd::prelude::*;

use crate::catalog::Catalog;
use crate::date::Date;
use crate::links::link_pairs;
use crate::lookup::album_urls;
use crate::lookup::artist_ids;
use crate::lookup::find_first;
use crate::lookup::genre_ids;
use crate::lookup::mood_ids;
use crate::sorting::sort_by_key_spec;
use crate::tracks::insert_tracks_spec;
use crate::tracks::other_album_tracks;
use crate::tracks::track_views_spec;
use crate::tracks::tracks_ok;
use crate::types::Album;
use crate::types::AppError;
use crate::writes::resolve_artists_fold;
use crate::writes::resolve_genres_fold;
use crate::writes::resolve_moods_fold;
use crate::writes::upsert_album_spec;
use crate::types::NewAlbum;

verus! {

impl Catalog {
    /// The registration pipeline: upserts the album row by URL, resolves
    /// every supplied genre, artist and mood, replaces the album's track
    /// listing, links the album to the resolved rows, and returns the
    /// assembled album view.  A rejected track listing aborts the pipeline
    /// after the resolutions; the steps already taken are kept (the write
    /// pipeline is not atomic by design).
    pub fn register_album(&mut self, album: &NewAlbum, today: Date) -> (r: Result<Album, AppError>)
        requires
            old(self).wf(),
        ensures
            final(self).wf(),
            r is Ok <==> tracks_ok(album.tracks@),
            r matches Err(e) ==> e == AppError::Constraint,
            ({
                let up = upsert_album_spec(old(self).albums@, *album, old(self).next_id, today);
                let f0 = if find_first(album_urls(old(self).albums@), album.url@) is Some {
                    old(self).next_id
                } else {
                    (old(self).next_id + 1) as u128
                };
                let gf = resolve_genres_fold(old(self).genres@, album.genres@, f0);
                let af = resolve_artists_fold(old(self).artists@, album.artists@, gf.1);
                let mf = resolve_moods_fold(old(self).moods@, album.moods@, af.1);
                let tf = insert_tracks_spec(af.0, mf.1, up.1.id, album.tracks@);
                &&& final(self).albums@ == up.0
                &&& final(self).genres@ == gf.0
                &&& final(self).moods@ == mf.0
                &&& (r is Ok ==> {
                    &&& final(self).artists@ == tf.0
                    &&& final(self).next_id == tf.1
                    &&& final(self).tracks@ == other_album_tracks(old(self).tracks@, up.1.id)
                        + tf.2
                    &&& final(self).album_artists@ == link_pairs(
                        old(self).album_artists@,
                        up.1.id,
                        artist_ids(af.2),
                    )
                    &&& final(self).album_genres@ == link_pairs(
                        old(self).album_genres@,
                        up.1.id,
                        genre_ids(gf.2),
                    )
                    &&& final(self).album_moods@ == link_pairs(
                        old(self).album_moods@,
                        up.1.id,
                        mood_ids(mf.2),
                    )
                })
                &&& (r is Err ==> {
                    &&& final(self).artists@ == af.0
                    &&& final(self).next_id == mf.1
                    &&& final(self).tracks@ == old(self).tracks@
                    &&& final(self).album_artists@ == old(self).album_artists@
                    &&& final(self).album_genres@ == old(self).album_genres@
                    &&& final(self).album_moods@ == old(self).album_moods@
                })
                &&& (r matches Ok(a) ==> {
                    &&& a.id == up.1.id
                    &&& a.title == up.1.title
                    &&& a.localized_title == up.1.localized_title
                    &&& a.date == up.1.date
                    &&& a.url == up.1.url
                    &&& a.rym_url == up.1.rym_url
                    &&& a.score == up.1.score
                    &&& a.voters == up.1.voters
                    &&& a.modified_date == up.1.modified_date
                    &&& a.genres@ == gf.2
                    &&& a.artists@ == af.2
                    &&& a.moods@ == mf.2
                    &&& a.tracks@ == track_views_spec(tf.0, sort_by_key_spec(tf.2))
                })
            }),
    {
        let inserted = self.add_album(album, today);
        let genres = self.add_genres(&album.genres);
        let artists = self.add_artists(&album.artists);
        let moods = self.add_moods(&album.moods);
        let tracks = match self.add_tracks(inserted.id, &album.tracks) {
            Ok(t) => t,
            Err(e) => {
                return Err(e);
            },
        };
        self.add_album_artists(inserted.id, &artists);
        self.add_album_genres(inserted.id, &genres);
        self.add_album_moods(inserted.id, &moods);
        Ok(
            Album {
                id: inserted.id,
                title: inserted.title,
                localized_title: inserted.localized_title,
                artists,
                date: inserted.date,
                genres,
                moods,
                tracks,
                url: inserted.url,
                rym_url: inserted.rym_url,
                score: inserted.score,
                voters: inserted.voters,
                modified_date: inserted.modified_date,
            },
        )
    }
}

} // verus!
