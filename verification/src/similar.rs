use vstd::prelude::*;

use crate::catalog::Catalog;
use crate::filters::paginate;
use crate::lookup::find_first;
use crate::lookup::genre_ids;
use crate::lookup::junction_contains;
use crate::lookup::mood_ids;
use crate::reads::album_view_matches;
use crate::reads::genre_albums;
use crate::reads::mood_albums;
use crate::sorting::SortKey;
use crate::sorting::key_sorted;
use crate::sorting::lemma_sort_by_key_spec_props;
use crate::sorting::sort_by_key;
use crate::sorting::sort_by_key_spec;
use crate::tracks::lemma_filter_push;
use crate::types::AppError;
use crate::types::Genre;
use crate::types::InsertedAlbum;
use crate::types::GenreInfo;
use crate::types::Mood;
use crate::types::MoodInfo;
use crate::types::SimilarGenre;
use crate::types::SimilarMood;

verus! {

/// Whether the album table holds a rated row (voters not zero) with the
/// given id.  Unrated albums are excluded from every read-path query,
/// the similarity counts included.
pub open spec fn album_rated(als: Seq<InsertedAlbum>, album_id: u128) -> bool {
    exists|i: int|
        0 <= i < als.len() && (#[trigger] als[i]).id == album_id && als[i].voters != 0
}

/// Counts, over the rows of `prefix`, the junction rows that pair a rated
/// album with `other` while the full table `j_all` also pairs that album
/// with `target`.
pub open spec fn co_count_rec(
    als: Seq<InsertedAlbum>,
    j_all: Seq<(u128, u128)>,
    prefix: Seq<(u128, u128)>,
    target: u128,
    other: u128,
) -> int
    decreases prefix.len(),
{
    if prefix.len() == 0 {
        0
    } else {
        co_count_rec(als, j_all, prefix.drop_last(), target, other) + (
        if prefix.last().1 == other && j_all.contains((prefix.last().0, target)) && album_rated(
            als,
            prefix.last().0,
        ) {
            1int
        } else {
            0int
        })
    }
}

/// On how many rated albums the `target` entity co-occurs with `other`:
/// the number of junction rows that pair a rated album with `other` while
/// the same album is also paired with `target`.  Pairs are unique, so
/// this counts shared albums; an album with no voters contributes
/// nothing.  The target trivially co-occurs with itself on every rated
/// album it tags, and that self entry is not excluded.
pub open spec fn co_count(
    als: Seq<InsertedAlbum>,
    j: Seq<(u128, u128)>,
    target: u128,
    other: u128,
) -> int {
    co_count_rec(als, j, j, target, other)
}

/// One ranking entry per genre that shares at least one rated album with
/// the target, in genre-table order, before ranking.
pub open spec fn similar_genres_spec(c: Catalog, target: u128) -> Seq<SimilarGenre> {
    c.genres@.filter(|g: Genre| co_count(c.albums@, c.album_genres@, target, g.id) > 0).map_values(
        |g: Genre|
            SimilarGenre {
                id: g.id,
                name: Some(g.name),
                count: Some(co_count(c.albums@, c.album_genres@, target, g.id) as u64),
            },
    )
}

/// One ranking entry per mood that shares at least one rated album with
/// the target, in mood-table order, before ranking.
pub open spec fn similar_moods_spec(c: Catalog, target: u128) -> Seq<SimilarMood> {
    c.moods@.filter(|m: Mood| co_count(c.albums@, c.album_moods@, target, m.id) > 0).map_values(
        |m: Mood|
            SimilarMood {
                id: m.id,
                name: Some(m.name),
                count: Some(co_count(c.albums@, c.album_moods@, target, m.id) as u64),
            },
    )
}

/// The shared-album count an entry reports; an absent count reads as zero.
pub open spec fn genre_entry_count(e: SimilarGenre) -> int {
    match e.count {
        Some(c) => c as int,
        None => 0,
    }
}

/// The shared-album count an entry reports; an absent count reads as zero.
pub open spec fn mood_entry_count(e: SimilarMood) -> int {
    match e.count {
        Some(c) => c as int,
        None => 0,
    }
}

impl SortKey for SimilarGenre {
    /// Ranking order: shared-album count descending.
    open spec fn key(self) -> int {
        -genre_entry_count(self)
    }

    fn le_key(&self, other: &Self) -> (r: bool) {
        let ca: u64 = match self.count {
            Some(c) => c,
            None => 0,
        };
        let cb: u64 = match other.count {
            Some(c) => c,
            None => 0,
        };
        ca >= cb
    }
}

impl SortKey for SimilarMood {
    /// Ranking order: shared-album count descending.
    open spec fn key(self) -> int {
        -mood_entry_count(self)
    }

    fn le_key(&self, other: &Self) -> (r: bool) {
        let ca: u64 = match self.count {
            Some(c) => c,
            None => 0,
        };
        let cb: u64 = match other.count {
            Some(c) => c,
            None => 0,
        };
        ca >= cb
    }
}

/// Whether the album table holds a rated row with the given id.
fn is_album_rated(als: &Vec<InsertedAlbum>, album_id: u128) -> (r: bool)
    ensures
        r == album_rated(als@, album_id),
{
    let n = als.len();
    for i in 0..n
        invariant
            n == als@.len(),
            forall|k: int|
                0 <= k < i ==> !((#[trigger] als@[k]).id == album_id && als@[k].voters != 0),
    {
        if als[i].id == album_id && als[i].voters != 0 {
            assert(als@[i as int].id == album_id && als@[i as int].voters != 0);
            return true;
        }
    }
    false
}

/// Counts the junction rows that witness a rated shared album between
/// `target` and `other`.
fn count_co(als: &Vec<InsertedAlbum>, j: &Vec<(u128, u128)>, target: u128, other: u128) -> (r:
    usize)
    ensures
        r as int == co_count(als@, j@, target, other),
{
    let mut count: usize = 0;
    let n = j.len();
    for i in 0..n
        invariant
            n == j@.len(),
            count <= i,
            count as int == co_count_rec(als@, j@, j@.take(i as int), target, other),
    {
        let hit = j[i].1 == other && junction_contains(j, j[i].0, target) && is_album_rated(
            als,
            j[i].0,
        );
        proof {
            assert(j@.take(i as int + 1).drop_last() =~= j@.take(i as int));
            assert(j@.take(i as int + 1).last() == j@[i as int]);
        }
        if hit {
            count += 1;
        }
    }
    proof {
        assert(j@.take(n as int) =~= j@);
    }
    count
}

impl Catalog {
    /// The genres that share at least one rated album with the given
    /// genre, each with its shared-album count, ordered by count
    /// descending.  Albums with no voters contribute to no count.
    pub fn get_similar_genres(&self, genre_id: u128) -> (out: Vec<SimilarGenre>)
        ensures
            out@ == sort_by_key_spec(similar_genres_spec(*self, genre_id)),
            forall|k1: int, k2: int|
                0 <= k1 <= k2 < out@.len() ==> genre_entry_count(out@[k1]) >= genre_entry_count(
                    out@[k2],
                ),
    {
        let mut entries: Vec<SimilarGenre> = Vec::new();
        let n = self.genres.len();
        proof {
            assert(self.genres@.take(0) =~= Seq::<Genre>::empty());
            assert(entries@ =~= self.genres@.take(0).filter(
                |g: Genre| co_count(self.albums@, self.album_genres@, genre_id, g.id) > 0,
            ).map_values(
                |g: Genre|
                    SimilarGenre {
                        id: g.id,
                        name: Some(g.name),
                        count: Some(
                            co_count(self.albums@, self.album_genres@, genre_id, g.id) as u64,
                        ),
                    },
            ));
        }
        for i in 0..n
            invariant
                n == self.genres@.len(),
                entries@ =~= self.genres@.take(i as int).filter(
                    |g: Genre| co_count(self.albums@, self.album_genres@, genre_id, g.id) > 0,
                ).map_values(
                    |g: Genre|
                        SimilarGenre {
                            id: g.id,
                            name: Some(g.name),
                            count: Some(
                                co_count(self.albums@, self.album_genres@, genre_id, g.id) as u64,
                            ),
                        },
                ),
        {
            let count = count_co(&self.albums, &self.album_genres, genre_id, self.genres[i].id);
            proof {
                lemma_filter_push(
                    self.genres@.take(i as int),
                    self.genres@[i as int],
                    |g: Genre| co_count(self.albums@, self.album_genres@, genre_id, g.id) > 0,
                );
                assert(self.genres@.take(i as int).push(self.genres@[i as int])
                    =~= self.genres@.take(i as int + 1));
                crate::writes::lemma_map_values_push(
                    self.genres@.take(i as int).filter(
                        |g: Genre| co_count(self.albums@, self.album_genres@, genre_id, g.id) > 0,
                    ),
                    self.genres@[i as int],
                    |g: Genre|
                        SimilarGenre {
                            id: g.id,
                            name: Some(g.name),
                            count: Some(
                                co_count(self.albums@, self.album_genres@, genre_id, g.id) as u64,
                            ),
                        },
                );
            }
            if count > 0 {
                let entry = SimilarGenre {
                    id: self.genres[i].id,
                    name: Some(self.genres[i].name.clone()),
                    count: Some(count as u64),
                };
                entries.push(entry);
            }
        }
        proof {
            assert(self.genres@.take(n as int) =~= self.genres@);
        }
        let mut out = entries;
        sort_by_key(&mut out);
        proof {
            lemma_sort_by_key_spec_props(similar_genres_spec(*self, genre_id));
            assert(key_sorted(out@));
        }
        out
    }

    /// The moods that share at least one rated album with the given
    /// mood, each with its shared-album count, ordered by count
    /// descending.  Albums with no voters contribute to no count.
    pub fn get_similar_moods(&self, mood_id: u128) -> (out: Vec<SimilarMood>)
        ensures
            out@ == sort_by_key_spec(similar_moods_spec(*self, mood_id)),
            forall|k1: int, k2: int|
                0 <= k1 <= k2 < out@.len() ==> mood_entry_count(out@[k1]) >= mood_entry_count(
                    out@[k2],
                ),
    {
        let mut entries: Vec<SimilarMood> = Vec::new();
        let n = self.moods.len();
        proof {
            assert(self.moods@.take(0) =~= Seq::<Mood>::empty());
            assert(entries@ =~= self.moods@.take(0).filter(
                |m: Mood| co_count(self.albums@, self.album_moods@, mood_id, m.id) > 0,
            ).map_values(
                |m: Mood|
                    SimilarMood {
                        id: m.id,
                        name: Some(m.name),
                        count: Some(
                            co_count(self.albums@, self.album_moods@, mood_id, m.id) as u64,
                        ),
                    },
            ));
        }
        for i in 0..n
            invariant
                n == self.moods@.len(),
                entries@ =~= self.moods@.take(i as int).filter(
                    |m: Mood| co_count(self.albums@, self.album_moods@, mood_id, m.id) > 0,
                ).map_values(
                    |m: Mood|
                        SimilarMood {
                            id: m.id,
                            name: Some(m.name),
                            count: Some(
                                co_count(self.albums@, self.album_moods@, mood_id, m.id) as u64,
                            ),
                        },
                ),
        {
            let count = count_co(&self.albums, &self.album_moods, mood_id, self.moods[i].id);
            proof {
                lemma_filter_push(
                    self.moods@.take(i as int),
                    self.moods@[i as int],
                    |m: Mood| co_count(self.albums@, self.album_moods@, mood_id, m.id) > 0,
                );
                assert(self.moods@.take(i as int).push(self.moods@[i as int])
                    =~= self.moods@.take(i as int + 1));
                crate::writes::lemma_map_values_push(
                    self.moods@.take(i as int).filter(
                        |m: Mood| co_count(self.albums@, self.album_moods@, mood_id, m.id) > 0,
                    ),
                    self.moods@[i as int],
                    |m: Mood|
                        SimilarMood {
                            id: m.id,
                            name: Some(m.name),
                            count: Some(
                                co_count(self.albums@, self.album_moods@, mood_id, m.id) as u64,
                            ),
                        },
                );
            }
            if count > 0 {
                let entry = SimilarMood {
                    id: self.moods[i].id,
                    name: Some(self.moods[i].name.clone()),
                    count: Some(count as u64),
                };
                entries.push(entry);
            }
        }
        proof {
            assert(self.moods@.take(n as int) =~= self.moods@);
        }
        let mut out = entries;
        sort_by_key(&mut out);
        proof {
            lemma_sort_by_key_spec_props(similar_moods_spec(*self, mood_id));
            assert(key_sorted(out@));
        }
        out
    }

    /// One genre's page: the genre row itself, its co-occurrence ranking,
    /// and one page of its albums.  An unknown id is the client's error.
    pub fn get_genre_info(&self, genre_id: u128, page: u64, limit: u64) -> (r: Result<
        GenreInfo,
        AppError,
    >)
        ensures
            r is Ok <==> find_first(genre_ids(self.genres@), genre_id) is Some,
            r matches Err(e) ==> e == AppError::NotFound,
            r matches Ok(gi) ==> ({
                &&& match find_first(genre_ids(self.genres@), genre_id) {
                    Some(i) => gi.genre == self.genres@[i],
                    None => false,
                }
                &&& gi.similar_genres@ == sort_by_key_spec(similar_genres_spec(*self, genre_id))
                &&& ({
                    let rows = paginate(
                        sort_by_key_spec(genre_albums(*self, genre_id)),
                        page as int,
                        limit as int,
                    );
                    &&& gi.albums@.len() == rows.len()
                    &&& forall|k: int|
                        0 <= k < rows.len() ==> album_view_matches(
                            *self,
                            rows[k],
                            #[trigger] gi.albums@[k],
                        )
                })
            }),
    {
        let genre = match self.get_genre(genre_id) {
            Ok(g) => g,
            Err(e) => {
                return Err(e);
            },
        };
        let similar_genres = self.get_similar_genres(genre_id);
        let albums = self.get_albums_for_genre(genre_id, page, limit);
        Ok(GenreInfo { genre, similar_genres, albums })
    }

    /// One mood's page: the mood row itself, its co-occurrence ranking,
    /// and one page of its albums.  An unknown id is the client's error.
    pub fn get_mood_info(&self, mood_id: u128, page: u64, limit: u64) -> (r: Result<
        MoodInfo,
        AppError,
    >)
        ensures
            r is Ok <==> find_first(mood_ids(self.moods@), mood_id) is Some,
            r matches Err(e) ==> e == AppError::NotFound,
            r matches Ok(mi) ==> ({
                &&& match find_first(mood_ids(self.moods@), mood_id) {
                    Some(i) => mi.mood == self.moods@[i],
                    None => false,
                }
                &&& mi.similar_moods@ == sort_by_key_spec(similar_moods_spec(*self, mood_id))
                &&& ({
                    let rows = paginate(
                        sort_by_key_spec(mood_albums(*self, mood_id)),
                        page as int,
                        limit as int,
                    );
                    &&& mi.albums@.len() == rows.len()
                    &&& forall|k: int|
                        0 <= k < rows.len() ==> album_view_matches(
                            *self,
                            rows[k],
                            #[trigger] mi.albums@[k],
                        )
                })
            }),
    {
        let mood = match self.get_mood(mood_id) {
            Ok(m) => m,
            Err(e) => {
                return Err(e);
            },
        };
        let similar_moods = self.get_similar_moods(mood_id);
        let albums = self.get_albums_for_mood(mood_id, page, limit);
        Ok(MoodInfo { mood, similar_moods, albums })
    }
}

} // verus!
