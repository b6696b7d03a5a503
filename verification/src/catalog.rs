use vstd::prelude::*;

use crate::lookup::album_ids;
use crate::lookup::album_urls;
use crate::lookup::artist_ids;
use crate::lookup::artist_names;
use crate::lookup::genre_ids;
use crate::lookup::genre_names;
use crate::lookup::mood_ids;
use crate::lookup::mood_names;
use crate::types::Artist;
use crate::types::Genre;
use crate::types::InsertedAlbum;
use crate::types::Mood;
use crate::types::TrackRow;

verus! {

/// The `(album, track number)` pairs of a track table, in table order.
pub open spec fn track_pairs(ts: Seq<TrackRow>) -> Seq<(u128, i32)> {
    ts.map_values(|t: TrackRow| (t.album_id, t.track_number))
}

/// The normalized relational store: one table per entity, three junction
/// tables, and a counter from which every new row id is minted.
pub struct Catalog {
    pub albums: Vec<InsertedAlbum>,
    pub artists: Vec<Artist>,
    pub genres: Vec<Genre>,
    pub moods: Vec<Mood>,
    pub tracks: Vec<TrackRow>,
    pub album_artists: Vec<(u128, u128)>,
    pub album_genres: Vec<(u128, u128)>,
    pub album_moods: Vec<(u128, u128)>,
    pub next_id: u128,
}

impl Catalog {
    /// The store's invariant: ids and natural keys are unique in every
    /// entity table, junction membership is a set, track numbers are
    /// positive and unique within their album, and every minted id lies
    /// below the counter, which counts the rows that ever minted one.
    pub open spec fn wf(self) -> bool {
        &&& album_urls(self.albums@).no_duplicates()
        &&& album_ids(self.albums@).no_duplicates()
        &&& artist_names(self.artists@).no_duplicates()
        &&& artist_ids(self.artists@).no_duplicates()
        &&& genre_names(self.genres@).no_duplicates()
        &&& genre_ids(self.genres@).no_duplicates()
        &&& mood_names(self.moods@).no_duplicates()
        &&& mood_ids(self.moods@).no_duplicates()
        &&& self.album_artists@.no_duplicates()
        &&& self.album_genres@.no_duplicates()
        &&& self.album_moods@.no_duplicates()
        &&& track_pairs(self.tracks@).no_duplicates()
        &&& forall|i: int| 0 <= i < self.tracks@.len() ==> self.tracks@[i].track_number >= 1
        &&& forall|i: int|
            0 <= i < self.albums@.len() ==> #[trigger] self.albums@[i].id < self.next_id
        &&& forall|i: int|
            0 <= i < self.artists@.len() ==> #[trigger] self.artists@[i].id < self.next_id
        &&& forall|i: int|
            0 <= i < self.genres@.len() ==> #[trigger] self.genres@[i].id < self.next_id
        &&& forall|i: int|
            0 <= i < self.moods@.len() ==> #[trigger] self.moods@[i].id < self.next_id
        &&& self.next_id == self.albums@.len() + self.artists@.len() + self.genres@.len()
            + self.moods@.len()
    }

    /// An empty catalog.
    pub fn new() -> (r: Catalog)
        ensures
            r.wf(),
            r.albums@ =~= Seq::<InsertedAlbum>::empty(),
            r.artists@ =~= Seq::<Artist>::empty(),
            r.genres@ =~= Seq::<Genre>::empty(),
            r.moods@ =~= Seq::<Mood>::empty(),
            r.tracks@ =~= Seq::<TrackRow>::empty(),
            r.album_artists@ =~= Seq::<(u128, u128)>::empty(),
            r.album_genres@ =~= Seq::<(u128, u128)>::empty(),
            r.album_moods@ =~= Seq::<(u128, u128)>::empty(),
            r.next_id == 0,
    {
        Catalog {
            albums: Vec::new(),
            artists: Vec::new(),
            genres: Vec::new(),
            moods: Vec::new(),
            tracks: Vec::new(),
            album_artists: Vec::new(),
            album_genres: Vec::new(),
            album_moods: Vec::new(),
            next_id: 0,
        }
    }
}

/// Appending an element that a duplicate-free sequence does not yet hold
/// keeps it duplicate-free.
pub proof fn lemma_push_no_dup<T>(s: Seq<T>, x: T)
    requires
        s.no_duplicates(),
        !s.contains(x),
    ensures
        s.push(x).no_duplicates(),
{
    assert forall|i: int, j: int|
        0 <= i < s.push(x).len() && 0 <= j < s.push(x).len() && i != j implies s.push(x)[i]
        != s.push(x)[j] by {
        if i < s.len() && j < s.len() {
        } else if i == s.len() {
            assert(s[j] != x);
        } else {
            assert(s[i] != x);
        }
    }
}

/// An element is in a concatenation exactly when it is in either part.
pub proof fn lemma_contains_add<T>(a: Seq<T>, b: Seq<T>, x: T)
    ensures
        (a + b).contains(x) <==> (a.contains(x) || b.contains(x)),
{
    if a.contains(x) {
        let i = choose|i: int| 0 <= i < a.len() && a[i] == x;
        assert((a + b)[i] == x);
    }
    if b.contains(x) {
        let i = choose|i: int| 0 <= i < b.len() && b[i] == x;
        assert((a + b)[a.len() + i] == x);
    }
    if (a + b).contains(x) {
        let i = choose|i: int| 0 <= i < (a + b).len() && (a + b)[i] == x;
        if i < a.len() {
            assert(a[i] == x);
        } else {
            assert(b[i - a.len()] == x);
        }
    }
}

/// Mapping distributes over concatenation.
pub proof fn lemma_map_values_add<T, U>(a: Seq<T>, b: Seq<T>, f: spec_fn(T) -> U)
    ensures
        (a + b).map_values(f) =~= a.map_values(f) + b.map_values(f),
{
    assert forall|i: int| 0 <= i < (a + b).map_values(f).len() implies (a + b).map_values(f)[i] == (
    a.map_values(f) + b.map_values(f))[i] by {
        if i < a.len() {
            assert((a + b)[i] == a[i]);
        } else {
            assert((a + b)[i] == b[i - a.len()]);
        }
    }
}

} // verus!
