use vstd::prelude::*;

use crate::catalog::Catalog;
use crate::catalog::lemma_push_no_dup;
use crate::lookup::artist_ids;
use crate::lookup::artist_names;
use crate::lookup::find_artist_by_name;
use crate::lookup::find_first;
use crate::lookup::find_genre_by_name;
use crate::lookup::find_mood_by_name;
use crate::lookup::genre_ids;
use crate::lookup::genre_names;
use crate::lookup::lemma_find_first;
use crate::lookup::mood_ids;
use crate::lookup::mood_names;
use crate::date::Date;
use crate::lookup::album_ids;
use crate::lookup::album_urls;
use crate::lookup::find_album_by_url;
use crate::types::Artist;
use crate::types::Genre;
use crate::types::InsertedAlbum;
use crate::types::Mood;
use crate::types::NewAlbum;
use crate::types::NewArtist;
use crate::types::clone_opt_string;

verus! {

/// Mapping a sequence after a push is pushing the mapped value.
pub proof fn lemma_map_values_push<T, U>(s: Seq<T>, x: T, f: spec_fn(T) -> U)
    ensures
        s.push(x).map_values(f) =~= s.map_values(f).push(f(x)),
{
    assert forall|i: int| 0 <= i < s.push(x).map_values(f).len() implies s.push(x).map_values(
        f,
    )[i] == s.map_values(f).push(f(x))[i] by {
        if i < s.len() {
        } else {
            assert(s.push(x)[i] == x);
        }
    }
}

/// Mapping a sequence after an in-place update is updating the mapped value.
pub proof fn lemma_map_values_update<T, U>(s: Seq<T>, i: int, x: T, f: spec_fn(T) -> U)
    requires
        0 <= i < s.len(),
    ensures
        s.update(i, x).map_values(f) =~= s.map_values(f).update(i, f(x)),
{
    assert forall|j: int| 0 <= j < s.update(i, x).map_values(f).len() implies s.update(
        i,
        x,
    ).map_values(f)[j] == s.map_values(f).update(i, f(x))[j] by {
        if j != i {
            assert(s.update(i, x)[j] == s[j]);
        }
    }
}

/// The get-or-create transition of the genre table: an existing row with
/// the name is returned untouched; otherwise a row with the fresh id is
/// appended and returned.
pub open spec fn resolve_genre_spec(gs: Seq<Genre>, name: String, fresh: u128) -> (Seq<
    Genre,
>, Genre) {
    match find_first(genre_names(gs), name@) {
        Some(i) => (gs, gs[i]),
        None => {
            let row = Genre { id: fresh, name: name };
            (gs.push(row), row)
        },
    }
}

/// The get-or-create transition of the mood table.
pub open spec fn resolve_mood_spec(ms: Seq<Mood>, name: String, fresh: u128) -> (Seq<
    Mood,
>, Mood) {
    match find_first(mood_names(ms), name@) {
        Some(i) => (ms, ms[i]),
        None => {
            let row = Mood { id: fresh, name: name };
            (ms.push(row), row)
        },
    }
}

/// The get-or-create transition of the artist table.  On a name conflict
/// the row keeps its id but takes the newly supplied localized name (last
/// write wins); otherwise a fresh row is appended.
pub open spec fn resolve_artist_spec(ars: Seq<Artist>, na: NewArtist, fresh: u128) -> (Seq<
    Artist,
>, Artist) {
    match find_first(artist_names(ars), na.name@) {
        Some(i) => {
            let row = Artist { id: ars[i].id, name: ars[i].name, localized_name: na.localized_name };
            (ars.update(i, row), row)
        },
        None => {
            let row = Artist { id: fresh, name: na.name, localized_name: na.localized_name };
            (ars.push(row), row)
        },
    }
}

/// The album row that a registration request writes: every scalar field is
/// taken from the request, and the modification date is the write's date.
pub open spec fn scalar_row_spec(n: NewAlbum, id: u128, today: Date) -> InsertedAlbum {
    InsertedAlbum {
        id,
        title: n.album,
        localized_title: n.localized_title,
        date: n.date,
        url: n.url,
        rym_url: Some(n.rym_url),
        score: n.score,
        voters: n.voters,
        modified_date: today,
    }
}

/// The upsert-by-URL transition of the album table: a row with the
/// request's URL is overwritten in place, keeping only its id; otherwise a
/// row with the fresh id is appended.  The written row is returned.
pub open spec fn upsert_album_spec(
    als: Seq<InsertedAlbum>,
    n: NewAlbum,
    fresh: u128,
    today: Date,
) -> (Seq<InsertedAlbum>, InsertedAlbum) {
    match find_first(album_urls(als), n.url@) {
        Some(i) => {
            let row = scalar_row_spec(n, als[i].id, today);
            (als.update(i, row), row)
        },
        None => {
            let row = scalar_row_spec(n, fresh, today);
            (als.push(row), row)
        },
    }
}

/// Sequential get-or-create resolution of a list of genre names: the table
/// and the fresh-id counter thread through, and the resolved rows come
/// back in input order (duplicated names resolve to the same row).
pub open spec fn resolve_genres_fold(gs: Seq<Genre>, names: Seq<String>, fresh: u128) -> (
    Seq<Genre>,
    u128,
    Seq<Genre>,
)
    decreases names.len(),
{
    if names.len() == 0 {
        (gs, fresh, Seq::<Genre>::empty())
    } else {
        let out = resolve_genre_spec(gs, names[0], fresh);
        let f1 = if find_first(genre_names(gs), names[0]@) is Some {
            fresh
        } else {
            (fresh + 1) as u128
        };
        let rest = resolve_genres_fold(out.0, names.drop_first(), f1);
        (rest.0, rest.1, seq![out.1] + rest.2)
    }
}

/// Sequential get-or-create resolution of a list of mood names.
pub open spec fn resolve_moods_fold(ms: Seq<Mood>, names: Seq<String>, fresh: u128) -> (
    Seq<Mood>,
    u128,
    Seq<Mood>,
)
    decreases names.len(),
{
    if names.len() == 0 {
        (ms, fresh, Seq::<Mood>::empty())
    } else {
        let out = resolve_mood_spec(ms, names[0], fresh);
        let f1 = if find_first(mood_names(ms), names[0]@) is Some {
            fresh
        } else {
            (fresh + 1) as u128
        };
        let rest = resolve_moods_fold(out.0, names.drop_first(), f1);
        (rest.0, rest.1, seq![out.1] + rest.2)
    }
}

/// Sequential get-or-create resolution of a list of artists.
pub open spec fn resolve_artists_fold(ars: Seq<Artist>, reqs: Seq<NewArtist>, fresh: u128) -> (
    Seq<Artist>,
    u128,
    Seq<Artist>,
)
    decreases reqs.len(),
{
    if reqs.len() == 0 {
        (ars, fresh, Seq::<Artist>::empty())
    } else {
        let out = resolve_artist_spec(ars, reqs[0], fresh);
        let f1 = if find_first(artist_names(ars), reqs[0].name@) is Some {
            fresh
        } else {
            (fresh + 1) as u128
        };
        let rest = resolve_artists_fold(out.0, reqs.drop_first(), f1);
        (rest.0, rest.1, seq![out.1] + rest.2)
    }
}

/// Resolving one more genre name is one more get-or-create step.
pub proof fn lemma_resolve_genres_snoc(gs: Seq<Genre>, names: Seq<String>, fresh: u128, x: String)
    ensures
        resolve_genres_fold(gs, names.push(x), fresh) == ({
            let mid = resolve_genres_fold(gs, names, fresh);
            let out = resolve_genre_spec(mid.0, x, mid.1);
            let f2 = if find_first(genre_names(mid.0), x@) is Some {
                mid.1
            } else {
                (mid.1 + 1) as u128
            };
            (out.0, f2, mid.2.push(out.1))
        }),
    decreases names.len(),
{
    if names.len() == 0 {
        assert(names.push(x)[0] == x);
        assert(names.push(x).drop_first() =~= names);
        let out = resolve_genre_spec(gs, x, fresh);
        let f2 = if find_first(genre_names(gs), x@) is Some {
            fresh
        } else {
            (fresh + 1) as u128
        };
        assert(resolve_genres_fold(out.0, names, f2) == (out.0, f2, Seq::<Genre>::empty()));
        assert(seq![out.1] + Seq::<Genre>::empty() =~= Seq::<Genre>::empty().push(out.1));
    } else {
        assert(names.push(x)[0] == names[0]);
        assert(names.push(x).drop_first() =~= names.drop_first().push(x));
        let out0 = resolve_genre_spec(gs, names[0], fresh);
        let f1 = if find_first(genre_names(gs), names[0]@) is Some {
            fresh
        } else {
            (fresh + 1) as u128
        };
        lemma_resolve_genres_snoc(out0.0, names.drop_first(), f1, x);
        let mid = resolve_genres_fold(out0.0, names.drop_first(), f1);
        let outn = resolve_genre_spec(mid.0, x, mid.1);
        assert(seq![out0.1] + mid.2.push(outn.1) =~= (seq![out0.1] + mid.2).push(outn.1));
    }
}

/// Resolving one more mood name is one more get-or-create step.
pub proof fn lemma_resolve_moods_snoc(ms: Seq<Mood>, names: Seq<String>, fresh: u128, x: String)
    ensures
        resolve_moods_fold(ms, names.push(x), fresh) == ({
            let mid = resolve_moods_fold(ms, names, fresh);
            let out = resolve_mood_spec(mid.0, x, mid.1);
            let f2 = if find_first(mood_names(mid.0), x@) is Some {
                mid.1
            } else {
                (mid.1 + 1) as u128
            };
            (out.0, f2, mid.2.push(out.1))
        }),
    decreases names.len(),
{
    if names.len() == 0 {
        assert(names.push(x)[0] == x);
        assert(names.push(x).drop_first() =~= names);
        let out = resolve_mood_spec(ms, x, fresh);
        let f2 = if find_first(mood_names(ms), x@) is Some {
            fresh
        } else {
            (fresh + 1) as u128
        };
        assert(resolve_moods_fold(out.0, names, f2) == (out.0, f2, Seq::<Mood>::empty()));
        assert(seq![out.1] + Seq::<Mood>::empty() =~= Seq::<Mood>::empty().push(out.1));
    } else {
        assert(names.push(x)[0] == names[0]);
        assert(names.push(x).drop_first() =~= names.drop_first().push(x));
        let out0 = resolve_mood_spec(ms, names[0], fresh);
        let f1 = if find_first(mood_names(ms), names[0]@) is Some {
            fresh
        } else {
            (fresh + 1) as u128
        };
        lemma_resolve_moods_snoc(out0.0, names.drop_first(), f1, x);
        let mid = resolve_moods_fold(out0.0, names.drop_first(), f1);
        let outn = resolve_mood_spec(mid.0, x, mid.1);
        assert(seq![out0.1] + mid.2.push(outn.1) =~= (seq![out0.1] + mid.2).push(outn.1));
    }
}

/// Resolving one more artist is one more get-or-create step.
pub proof fn lemma_resolve_artists_snoc(
    ars: Seq<Artist>,
    reqs: Seq<NewArtist>,
    fresh: u128,
    x: NewArtist,
)
    ensures
        resolve_artists_fold(ars, reqs.push(x), fresh) == ({
            let mid = resolve_artists_fold(ars, reqs, fresh);
            let out = resolve_artist_spec(mid.0, x, mid.1);
            let f2 = if find_first(artist_names(mid.0), x.name@) is Some {
                mid.1
            } else {
                (mid.1 + 1) as u128
            };
            (out.0, f2, mid.2.push(out.1))
        }),
    decreases reqs.len(),
{
    if reqs.len() == 0 {
        assert(reqs.push(x)[0] == x);
        assert(reqs.push(x).drop_first() =~= reqs);
        let out = resolve_artist_spec(ars, x, fresh);
        let f2 = if find_first(artist_names(ars), x.name@) is Some {
            fresh
        } else {
            (fresh + 1) as u128
        };
        assert(resolve_artists_fold(out.0, reqs, f2) == (out.0, f2, Seq::<Artist>::empty()));
        assert(seq![out.1] + Seq::<Artist>::empty() =~= Seq::<Artist>::empty().push(out.1));
    } else {
        assert(reqs.push(x)[0] == reqs[0]);
        assert(reqs.push(x).drop_first() =~= reqs.drop_first().push(x));
        let out0 = resolve_artist_spec(ars, reqs[0], fresh);
        let f1 = if find_first(artist_names(ars), reqs[0].name@) is Some {
            fresh
        } else {
            (fresh + 1) as u128
        };
        lemma_resolve_artists_snoc(out0.0, reqs.drop_first(), f1, x);
        let mid = resolve_artists_fold(out0.0, reqs.drop_first(), f1);
        let outn = resolve_artist_spec(mid.0, x, mid.1);
        assert(seq![out0.1] + mid.2.push(outn.1) =~= (seq![out0.1] + mid.2).push(outn.1));
    }
}

impl Catalog {
    /// Establishes that the id about to be minted fits below the counter's
    /// ceiling, from the row counts that back the counter.
    fn mint_bound(&self)
        requires
            self.wf(),
        ensures
            self.next_id < u128::MAX,
    {
        let la = self.albums.len();
        let lr = self.artists.len();
        let lg = self.genres.len();
        let lm = self.moods.len();
        assert(self.next_id == la + lr + lg + lm);
    }

    /// Resolves a genre name to its row, creating the row on first use.
    /// Resolving a name that is already present returns the existing row
    /// and leaves every table untouched.
    pub fn get_or_create_genre(&mut self, name: &String) -> (r: Genre)
        requires
            old(self).wf(),
        ensures
            final(self).wf(),
            (final(self).genres@, r) == resolve_genre_spec(
                old(self).genres@,
                *name,
                old(self).next_id,
            ),
            final(self).albums@ == old(self).albums@,
            final(self).artists@ == old(self).artists@,
            final(self).moods@ == old(self).moods@,
            final(self).tracks@ == old(self).tracks@,
            final(self).album_artists@ == old(self).album_artists@,
            final(self).album_genres@ == old(self).album_genres@,
            final(self).album_moods@ == old(self).album_moods@,
            final(self).next_id == old(self).next_id + (
            if find_first(genre_names(old(self).genres@), name@) is Some {
                0int
            } else {
                1int
            }),
            r.name@ == name@,
            r.id < final(self).next_id,
    {
        match find_genre_by_name(&self.genres, name) {
            Some(i) => {
                proof {
                    lemma_find_first(genre_names(self.genres@), name@);
                }
                self.genres[i].clone()
            },
            None => {
                self.mint_bound();
                let id = self.next_id;
                let row = Genre { id, name: name.clone() };
                let r = row.clone();
                proof {
                    lemma_find_first(genre_names(self.genres@), name@);
                    assert(!genre_names(self.genres@).contains(name@));
                    assert forall|j: int| 0 <= j < genre_ids(self.genres@).len() implies genre_ids(
                        self.genres@,
                    )[j] != id by {
                        assert(self.genres@[j].id < self.next_id);
                    }
                    assert(!genre_ids(self.genres@).contains(id));
                    lemma_push_no_dup(genre_names(self.genres@), name@);
                    lemma_push_no_dup(genre_ids(self.genres@), id);
                    lemma_map_values_push(self.genres@, row, |g: Genre| g.name@);
                    lemma_map_values_push(self.genres@, row, |g: Genre| g.id);
                }
                self.next_id = id + 1;
                self.genres.push(row);
                r
            },
        }
    }

    /// Resolves a mood name to its row, creating the row on first use.
    pub fn get_or_create_mood(&mut self, name: &String) -> (r: Mood)
        requires
            old(self).wf(),
        ensures
            final(self).wf(),
            (final(self).moods@, r) == resolve_mood_spec(
                old(self).moods@,
                *name,
                old(self).next_id,
            ),
            final(self).albums@ == old(self).albums@,
            final(self).artists@ == old(self).artists@,
            final(self).genres@ == old(self).genres@,
            final(self).tracks@ == old(self).tracks@,
            final(self).album_artists@ == old(self).album_artists@,
            final(self).album_genres@ == old(self).album_genres@,
            final(self).album_moods@ == old(self).album_moods@,
            final(self).next_id == old(self).next_id + (
            if find_first(mood_names(old(self).moods@), name@) is Some {
                0int
            } else {
                1int
            }),
            r.name@ == name@,
            r.id < final(self).next_id,
    {
        match find_mood_by_name(&self.moods, name) {
            Some(i) => {
                proof {
                    lemma_find_first(mood_names(self.moods@), name@);
                }
                self.moods[i].clone()
            },
            None => {
                self.mint_bound();
                let id = self.next_id;
                let row = Mood { id, name: name.clone() };
                let r = row.clone();
                proof {
                    lemma_find_first(mood_names(self.moods@), name@);
                    assert(!mood_names(self.moods@).contains(name@));
                    assert forall|j: int| 0 <= j < mood_ids(self.moods@).len() implies mood_ids(
                        self.moods@,
                    )[j] != id by {
                        assert(self.moods@[j].id < self.next_id);
                    }
                    assert(!mood_ids(self.moods@).contains(id));
                    lemma_push_no_dup(mood_names(self.moods@), name@);
                    lemma_push_no_dup(mood_ids(self.moods@), id);
                    lemma_map_values_push(self.moods@, row, |m: Mood| m.name@);
                    lemma_map_values_push(self.moods@, row, |m: Mood| m.id);
                }
                self.next_id = id + 1;
                self.moods.push(row);
                r
            },
        }
    }

    /// Resolves an artist to its row, creating the row on first use.  A
    /// repeated name keeps its id while the localized name is refreshed
    /// from the request (last write wins).
    pub fn get_or_create_artist(&mut self, artist: &NewArtist) -> (r: Artist)
        requires
            old(self).wf(),
        ensures
            final(self).wf(),
            (final(self).artists@, r) == resolve_artist_spec(
                old(self).artists@,
                *artist,
                old(self).next_id,
            ),
            final(self).albums@ == old(self).albums@,
            final(self).genres@ == old(self).genres@,
            final(self).moods@ == old(self).moods@,
            final(self).tracks@ == old(self).tracks@,
            final(self).album_artists@ == old(self).album_artists@,
            final(self).album_genres@ == old(self).album_genres@,
            final(self).album_moods@ == old(self).album_moods@,
            final(self).next_id == old(self).next_id + (
            if find_first(artist_names(old(self).artists@), artist.name@) is Some {
                0int
            } else {
                1int
            }),
            r.name@ == artist.name@,
            r.localized_name == artist.localized_name,
            r.id < final(self).next_id,
    {
        match find_artist_by_name(&self.artists, &artist.name) {
            Some(i) => {
                proof {
                    lemma_find_first(artist_names(self.artists@), artist.name@);
                }
                let id = self.artists[i].id;
                let row = Artist {
                    id,
                    name: self.artists[i].name.clone(),
                    localized_name: clone_opt_string(&artist.localized_name),
                };
                let r = row.clone();
                proof {
                    lemma_map_values_update(self.artists@, i as int, row, |a: Artist| a.name@);
                    lemma_map_values_update(self.artists@, i as int, row, |a: Artist| a.id);
                    assert(artist_names(self.artists@.update(i as int, row)) =~= artist_names(
                        self.artists@,
                    ));
                    assert(artist_ids(self.artists@.update(i as int, row)) =~= artist_ids(
                        self.artists@,
                    ));
                }
                self.artists.set(i, row);
                r
            },
            None => {
                self.mint_bound();
                let id = self.next_id;
                let row = Artist {
                    id,
                    name: artist.name.clone(),
                    localized_name: clone_opt_string(&artist.localized_name),
                };
                let r = row.clone();
                proof {
                    lemma_find_first(artist_names(self.artists@), artist.name@);
                    assert(!artist_names(self.artists@).contains(artist.name@));
                    assert forall|j: int| 0 <= j < artist_ids(self.artists@).len() implies artist_ids(
                        self.artists@,
                    )[j] != id by {
                        assert(self.artists@[j].id < self.next_id);
                    }
                    assert(!artist_ids(self.artists@).contains(id));
                    lemma_push_no_dup(artist_names(self.artists@), artist.name@);
                    lemma_push_no_dup(artist_ids(self.artists@), id);
                    lemma_map_values_push(self.artists@, row, |a: Artist| a.name@);
                    lemma_map_values_push(self.artists@, row, |a: Artist| a.id);
                }
                self.next_id = id + 1;
                self.artists.push(row);
                r
            },
        }
    }

    /// Upserts the album row by its URL: the first registration creates
    /// the row, every later one with the same URL overwrites its scalar
    /// fields in place and refreshes the modification date.
    pub fn add_album(&mut self, album: &NewAlbum, today: Date) -> (r: InsertedAlbum)
        requires
            old(self).wf(),
        ensures
            final(self).wf(),
            (final(self).albums@, r) == upsert_album_spec(
                old(self).albums@,
                *album,
                old(self).next_id,
                today,
            ),
            final(self).artists@ == old(self).artists@,
            final(self).genres@ == old(self).genres@,
            final(self).moods@ == old(self).moods@,
            final(self).tracks@ == old(self).tracks@,
            final(self).album_artists@ == old(self).album_artists@,
            final(self).album_genres@ == old(self).album_genres@,
            final(self).album_moods@ == old(self).album_moods@,
            final(self).next_id == old(self).next_id + (
            if find_first(album_urls(old(self).albums@), album.url@) is Some {
                0int
            } else {
                1int
            }),
            r.url@ == album.url@,
            r.id < final(self).next_id,
            final(self).albums@.contains(r),
    {
        match find_album_by_url(&self.albums, &album.url) {
            Some(i) => {
                proof {
                    lemma_find_first(album_urls(self.albums@), album.url@);
                }
                let id = self.albums[i].id;
                let row = InsertedAlbum {
                    id,
                    title: album.album.clone(),
                    localized_title: clone_opt_string(&album.localized_title),
                    date: album.date,
                    url: album.url.clone(),
                    rym_url: Some(album.rym_url.clone()),
                    score: album.score,
                    voters: album.voters,
                    modified_date: today,
                };
                let r = row.clone();
                proof {
                    lemma_map_values_update(
                        self.albums@,
                        i as int,
                        row,
                        |a: InsertedAlbum| a.url@,
                    );
                    lemma_map_values_update(self.albums@, i as int, row, |a: InsertedAlbum| a.id);
                    assert(album_urls(self.albums@.update(i as int, row)) =~= album_urls(
                        self.albums@,
                    ));
                    assert(album_ids(self.albums@.update(i as int, row)) =~= album_ids(
                        self.albums@,
                    ));
                    assert(self.albums@.update(i as int, row)[i as int] == row);
                }
                self.albums.set(i, row);
                proof {
                    assert(self.albums@[i as int] == r);
                }
                r
            },
            None => {
                self.mint_bound();
                let id = self.next_id;
                let row = InsertedAlbum {
                    id,
                    title: album.album.clone(),
                    localized_title: clone_opt_string(&album.localized_title),
                    date: album.date,
                    url: album.url.clone(),
                    rym_url: Some(album.rym_url.clone()),
                    score: album.score,
                    voters: album.voters,
                    modified_date: today,
                };
                let r = row.clone();
                proof {
                    lemma_find_first(album_urls(self.albums@), album.url@);
                    assert(!album_urls(self.albums@).contains(album.url@));
                    assert forall|j: int| 0 <= j < album_ids(self.albums@).len() implies album_ids(
                        self.albums@,
                    )[j] != id by {
                        assert(self.albums@[j].id < self.next_id);
                    }
                    assert(!album_ids(self.albums@).contains(id));
                    lemma_push_no_dup(album_urls(self.albums@), album.url@);
                    lemma_push_no_dup(album_ids(self.albums@), id);
                    lemma_map_values_push(self.albums@, row, |a: InsertedAlbum| a.url@);
                    lemma_map_values_push(self.albums@, row, |a: InsertedAlbum| a.id);
                }
                self.next_id = id + 1;
                self.albums.push(row);
                proof {
                    assert(self.albums@[self.albums@.len() - 1] == r);
                }
                r
            },
        }
    }

    /// Resolves every genre name of a request, in order.
    pub fn add_genres(&mut self, names: &Vec<String>) -> (out: Vec<Genre>)
        requires
            old(self).wf(),
        ensures
            final(self).wf(),
            ({
                let fold = resolve_genres_fold(old(self).genres@, names@, old(self).next_id);
                &&& final(self).genres@ == fold.0
                &&& final(self).next_id == fold.1
                &&& out@ == fold.2
            }),
            final(self).albums@ == old(self).albums@,
            final(self).artists@ == old(self).artists@,
            final(self).moods@ == old(self).moods@,
            final(self).tracks@ == old(self).tracks@,
            final(self).album_artists@ == old(self).album_artists@,
            final(self).album_genres@ == old(self).album_genres@,
            final(self).album_moods@ == old(self).album_moods@,
    {
        let mut out: Vec<Genre> = Vec::new();
        let n = names.len();
        proof {
            assert(names@.take(0) =~= Seq::<String>::empty());
            assert(resolve_genres_fold(self.genres@, names@.take(0), self.next_id) == (
                self.genres@,
                self.next_id,
                Seq::<Genre>::empty(),
            ));
        }
        for i in 0..n
            invariant
                n == names@.len(),
                self.wf(),
                ({
                    let fold = resolve_genres_fold(
                        old(self).genres@,
                        names@.take(i as int),
                        old(self).next_id,
                    );
                    &&& self.genres@ == fold.0
                    &&& self.next_id == fold.1
                    &&& out@ == fold.2
                }),
                self.albums@ == old(self).albums@,
                self.artists@ == old(self).artists@,
                self.moods@ == old(self).moods@,
                self.tracks@ == old(self).tracks@,
                self.album_artists@ == old(self).album_artists@,
                self.album_genres@ == old(self).album_genres@,
                self.album_moods@ == old(self).album_moods@,
        {
            proof {
                lemma_resolve_genres_snoc(
                    old(self).genres@,
                    names@.take(i as int),
                    old(self).next_id,
                    names@[i as int],
                );
                assert(names@.take(i as int).push(names@[i as int]) =~= names@.take(i as int + 1));
            }
            let row = self.get_or_create_genre(&names[i]);
            out.push(row);
        }
        proof {
            assert(names@.take(n as int) =~= names@);
        }
        out
    }

    /// Resolves every mood name of a request, in order.
    pub fn add_moods(&mut self, names: &Vec<String>) -> (out: Vec<Mood>)
        requires
            old(self).wf(),
        ensures
            final(self).wf(),
            ({
                let fold = resolve_moods_fold(old(self).moods@, names@, old(self).next_id);
                &&& final(self).moods@ == fold.0
                &&& final(self).next_id == fold.1
                &&& out@ == fold.2
            }),
            final(self).albums@ == old(self).albums@,
            final(self).artists@ == old(self).artists@,
            final(self).genres@ == old(self).genres@,
            final(self).tracks@ == old(self).tracks@,
            final(self).album_artists@ == old(self).album_artists@,
            final(self).album_genres@ == old(self).album_genres@,
            final(self).album_moods@ == old(self).album_moods@,
    {
        let mut out: Vec<Mood> = Vec::new();
        let n = names.len();
        proof {
            assert(names@.take(0) =~= Seq::<String>::empty());
            assert(resolve_moods_fold(self.moods@, names@.take(0), self.next_id) == (
                self.moods@,
                self.next_id,
                Seq::<Mood>::empty(),
            ));
        }
        for i in 0..n
            invariant
                n == names@.len(),
                self.wf(),
                ({
                    let fold = resolve_moods_fold(
                        old(self).moods@,
                        names@.take(i as int),
                        old(self).next_id,
                    );
                    &&& self.moods@ == fold.0
                    &&& self.next_id == fold.1
                    &&& out@ == fold.2
                }),
                self.albums@ == old(self).albums@,
                self.artists@ == old(self).artists@,
                self.genres@ == old(self).genres@,
                self.tracks@ == old(self).tracks@,
                self.album_artists@ == old(self).album_artists@,
                self.album_genres@ == old(self).album_genres@,
                self.album_moods@ == old(self).album_moods@,
        {
            proof {
                lemma_resolve_moods_snoc(
                    old(self).moods@,
                    names@.take(i as int),
                    old(self).next_id,
                    names@[i as int],
                );
                assert(names@.take(i as int).push(names@[i as int]) =~= names@.take(i as int + 1));
            }
            let row = self.get_or_create_mood(&names[i]);
            out.push(row);
        }
        proof {
            assert(names@.take(n as int) =~= names@);
        }
        out
    }

    /// Resolves every artist of a request, in order.
    pub fn add_artists(&mut self, reqs: &Vec<NewArtist>) -> (out: Vec<Artist>)
        requires
            old(self).wf(),
        ensures
            final(self).wf(),
            ({
                let fold = resolve_artists_fold(old(self).artists@, reqs@, old(self).next_id);
                &&& final(self).artists@ == fold.0
                &&& final(self).next_id == fold.1
                &&& out@ == fold.2
            }),
            final(self).albums@ == old(self).albums@,
            final(self).genres@ == old(self).genres@,
            final(self).moods@ == old(self).moods@,
            final(self).tracks@ == old(self).tracks@,
            final(self).album_artists@ == old(self).album_artists@,
            final(self).album_genres@ == old(self).album_genres@,
            final(self).album_moods@ == old(self).album_moods@,
    {
        let mut out: Vec<Artist> = Vec::new();
        let n = reqs.len();
        proof {
            assert(reqs@.take(0) =~= Seq::<NewArtist>::empty());
            assert(resolve_artists_fold(self.artists@, reqs@.take(0), self.next_id) == (
                self.artists@,
                self.next_id,
                Seq::<Artist>::empty(),
            ));
        }
        for i in 0..n
            invariant
                n == reqs@.len(),
                self.wf(),
                ({
                    let fold = resolve_artists_fold(
                        old(self).artists@,
                        reqs@.take(i as int),
                        old(self).next_id,
                    );
                    &&& self.artists@ == fold.0
                    &&& self.next_id == fold.1
                    &&& out@ == fold.2
                }),
                self.albums@ == old(self).albums@,
                self.genres@ == old(self).genres@,
                self.moods@ == old(self).moods@,
                self.tracks@ == old(self).tracks@,
                self.album_artists@ == old(self).album_artists@,
                self.album_genres@ == old(self).album_genres@,
                self.album_moods@ == old(self).album_moods@,
        {
            proof {
                lemma_resolve_artists_snoc(
                    old(self).artists@,
                    reqs@.take(i as int),
                    old(self).next_id,
                    reqs@[i as int],
                );
                assert(reqs@.take(i as int).push(reqs@[i as int]) =~= reqs@.take(i as int + 1));
            }
            let row = self.get_or_create_artist(&reqs[i]);
            out.push(row);
        }
        proof {
            assert(reqs@.take(n as int) =~= reqs@);
        }
        out
    }
}

} // verus!
