use vstd::prelude::*;

use crate::types::Artist;
use crate::types::Genre;
use crate::types::InsertedAlbum;
use crate::types::Mood;

verus! {

/// Index of the first occurrence of `x` in `s`, if any.
pub open spec fn find_first<T>(s: Seq<T>, x: T) -> Option<int>
    decreases s.len(),
{
    if s.len() == 0 {
        None
    } else if s[0] == x {
        Some(0int)
    } else {
        match find_first(s.drop_first(), x) {
            Some(i) => Some(i + 1),
            None => None,
        }
    }
}

/// `find_first` returns the smallest matching index, and `None` exactly
/// when nothing matches.
pub proof fn lemma_find_first<T>(s: Seq<T>, x: T)
    ensures
        match find_first(s, x) {
            Some(i) => {
                &&& 0 <= i < s.len()
                &&& s[i] == x
                &&& forall|j: int| 0 <= j < i ==> s[j] != x
            },
            None => forall|j: int| 0 <= j < s.len() ==> s[j] != x,
        },
    decreases s.len(),
{
    if s.len() > 0 && s[0] != x {
        lemma_find_first(s.drop_first(), x);
        assert forall|j: int| 0 <= j < s.len() implies s[j] == s.drop_first()[j - 1] || j == 0 by {}
    }
}

/// A sequence with a first occurrence at `i` and no earlier one has
/// `find_first` equal to `Some(i)`.
pub proof fn lemma_find_first_complete<T>(s: Seq<T>, x: T, i: int)
    requires
        0 <= i < s.len(),
        s[i] == x,
        forall|j: int| 0 <= j < i ==> s[j] != x,
    ensures
        find_first(s, x) == Some(i),
{
    lemma_find_first(s, x);
    match find_first(s, x) {
        Some(k) => {
            if k < i {
                assert(s[k] == x);
            }
            if i < k {
                assert(s[i] != x);
            }
        },
        None => {
            assert(s[i] != x);
        },
    }
}

/// The names of a genre table, in table order.
pub open spec fn genre_names(gs: Seq<Genre>) -> Seq<Seq<char>> {
    gs.map_values(|g: Genre| g.name@)
}

/// The ids of a genre table, in table order.
pub open spec fn genre_ids(gs: Seq<Genre>) -> Seq<u128> {
    gs.map_values(|g: Genre| g.id)
}

/// The names of a mood table, in table order.
pub open spec fn mood_names(ms: Seq<Mood>) -> Seq<Seq<char>> {
    ms.map_values(|m: Mood| m.name@)
}

/// The ids of a mood table, in table order.
pub open spec fn mood_ids(ms: Seq<Mood>) -> Seq<u128> {
    ms.map_values(|m: Mood| m.id)
}

/// The names of an artist table, in table order.
pub open spec fn artist_names(ars: Seq<Artist>) -> Seq<Seq<char>> {
    ars.map_values(|a: Artist| a.name@)
}

/// The ids of an artist table, in table order.
pub open spec fn artist_ids(ars: Seq<Artist>) -> Seq<u128> {
    ars.map_values(|a: Artist| a.id)
}

/// The external URLs of an album table, in table order.
pub open spec fn album_urls(als: Seq<InsertedAlbum>) -> Seq<Seq<char>> {
    als.map_values(|a: InsertedAlbum| a.url@)
}

/// The ids of an album table, in table order.
pub open spec fn album_ids(als: Seq<InsertedAlbum>) -> Seq<u128> {
    als.map_values(|a: InsertedAlbum| a.id)
}

/// Finds the first genre row with the given name.
pub fn find_genre_by_name(gs: &Vec<Genre>, name: &String) -> (r: Option<usize>)
    ensures
        match r {
            Some(i) => find_first(genre_names(gs@), name@) == Some(i as int),
            None => find_first(genre_names(gs@), name@) is None,
        },
{
    let n = gs.len();
    for i in 0..n
        invariant
            n == gs@.len(),
            forall|j: int| 0 <= j < i ==> genre_names(gs@)[j] != name@,
    {
        if gs[i].name.eq(name) {
            proof {
                lemma_find_first_complete(genre_names(gs@), name@, i as int);
            }
            return Some(i);
        }
    }
    proof {
        lemma_find_first(genre_names(gs@), name@);
        if let Some(k) = find_first(genre_names(gs@), name@) {
            assert(genre_names(gs@)[k] != name@);
        }
    }
    None
}

/// Finds the first mood row with the given name.
pub fn find_mood_by_name(ms: &Vec<Mood>, name: &String) -> (r: Option<usize>)
    ensures
        match r {
            Some(i) => find_first(mood_names(ms@), name@) == Some(i as int),
            None => find_first(mood_names(ms@), name@) is None,
        },
{
    let n = ms.len();
    for i in 0..n
        invariant
            n == ms@.len(),
            forall|j: int| 0 <= j < i ==> mood_names(ms@)[j] != name@,
    {
        if ms[i].name.eq(name) {
            proof {
                lemma_find_first_complete(mood_names(ms@), name@, i as int);
            }
            return Some(i);
        }
    }
    proof {
        lemma_find_first(mood_names(ms@), name@);
        if let Some(k) = find_first(mood_names(ms@), name@) {
            assert(mood_names(ms@)[k] != name@);
        }
    }
    None
}

/// Finds the first artist row with the given name.
pub fn find_artist_by_name(ars: &Vec<Artist>, name: &String) -> (r: Option<usize>)
    ensures
        match r {
            Some(i) => find_first(artist_names(ars@), name@) == Some(i as int),
            None => find_first(artist_names(ars@), name@) is None,
        },
{
    let n = ars.len();
    for i in 0..n
        invariant
            n == ars@.len(),
            forall|j: int| 0 <= j < i ==> artist_names(ars@)[j] != name@,
    {
        if ars[i].name.eq(name) {
            proof {
                lemma_find_first_complete(artist_names(ars@), name@, i as int);
            }
            return Some(i);
        }
    }
    proof {
        lemma_find_first(artist_names(ars@), name@);
        if let Some(k) = find_first(artist_names(ars@), name@) {
            assert(artist_names(ars@)[k] != name@);
        }
    }
    None
}

/// Finds the first album row with the given external URL.
pub fn find_album_by_url(als: &Vec<InsertedAlbum>, url: &String) -> (r: Option<usize>)
    ensures
        match r {
            Some(i) => find_first(album_urls(als@), url@) == Some(i as int),
            None => find_first(album_urls(als@), url@) is None,
        },
{
    let n = als.len();
    for i in 0..n
        invariant
            n == als@.len(),
            forall|j: int| 0 <= j < i ==> album_urls(als@)[j] != url@,
    {
        if als[i].url.eq(url) {
            proof {
                lemma_find_first_complete(album_urls(als@), url@, i as int);
            }
            return Some(i);
        }
    }
    proof {
        lemma_find_first(album_urls(als@), url@);
        if let Some(k) = find_first(album_urls(als@), url@) {
            assert(album_urls(als@)[k] != url@);
        }
    }
    None
}

/// Finds the first genre row with the given id.
pub fn find_genre_by_id(gs: &Vec<Genre>, id: u128) -> (r: Option<usize>)
    ensures
        match r {
            Some(i) => find_first(genre_ids(gs@), id) == Some(i as int),
            None => find_first(genre_ids(gs@), id) is None,
        },
{
    let n = gs.len();
    for i in 0..n
        invariant
            n == gs@.len(),
            forall|j: int| 0 <= j < i ==> genre_ids(gs@)[j] != id,
    {
        if gs[i].id == id {
            proof {
                lemma_find_first_complete(genre_ids(gs@), id, i as int);
            }
            return Some(i);
        }
    }
    proof {
        lemma_find_first(genre_ids(gs@), id);
        if let Some(k) = find_first(genre_ids(gs@), id) {
            assert(genre_ids(gs@)[k] != id);
        }
    }
    None
}

/// Finds the first mood row with the given id.
pub fn find_mood_by_id(ms: &Vec<Mood>, id: u128) -> (r: Option<usize>)
    ensures
        match r {
            Some(i) => find_first(mood_ids(ms@), id) == Some(i as int),
            None => find_first(mood_ids(ms@), id) is None,
        },
{
    let n = ms.len();
    for i in 0..n
        invariant
            n == ms@.len(),
            forall|j: int| 0 <= j < i ==> mood_ids(ms@)[j] != id,
    {
        if ms[i].id == id {
            proof {
                lemma_find_first_complete(mood_ids(ms@), id, i as int);
            }
            return Some(i);
        }
    }
    proof {
        lemma_find_first(mood_ids(ms@), id);
        if let Some(k) = find_first(mood_ids(ms@), id) {
            assert(mood_ids(ms@)[k] != id);
        }
    }
    None
}

/// Finds the first artist row with the given id.
pub fn find_artist_by_id(ars: &Vec<Artist>, id: u128) -> (r: Option<usize>)
    ensures
        match r {
            Some(i) => find_first(artist_ids(ars@), id) == Some(i as int),
            None => find_first(artist_ids(ars@), id) is None,
        },
{
    let n = ars.len();
    for i in 0..n
        invariant
            n == ars@.len(),
            forall|j: int| 0 <= j < i ==> artist_ids(ars@)[j] != id,
    {
        if ars[i].id == id {
            proof {
                lemma_find_first_complete(artist_ids(ars@), id, i as int);
            }
            return Some(i);
        }
    }
    proof {
        lemma_find_first(artist_ids(ars@), id);
        if let Some(k) = find_first(artist_ids(ars@), id) {
            assert(artist_ids(ars@)[k] != id);
        }
    }
    None
}

/// Whether a junction table holds the pair `(album_id, entity_id)`.
pub fn junction_contains(v: &Vec<(u128, u128)>, album_id: u128, entity_id: u128) -> (r: bool)
    ensures
        r == v@.contains((album_id, entity_id)),
{
    let n = v.len();
    for i in 0..n
        invariant
            n == v@.len(),
            forall|j: int| 0 <= j < i ==> v@[j] != (album_id, entity_id),
    {
        if v[i].0 == album_id && v[i].1 == entity_id {
            assert(v@[i as int] == (album_id, entity_id));
            return true;
        }
    }
    false
}

} // verus!
