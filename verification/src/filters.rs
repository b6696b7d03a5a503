use vstd::prelude::*;

use crate::date::Date;
use crate::date::date_key;
use crate::date::date_le;
use crate::types::InsertedAlbum;

verus! {

/// The optional query filters of the album list: all-of genre and mood
/// name sets, an inclusive minimum score, and an inclusive release-date
/// range.  An absent filter restricts nothing.
pub struct AlbumFilter {
    pub genres: Vec<String>,
    pub moods: Vec<String>,
    pub min_rating: Option<i64>,
    pub since: Option<Date>,
    pub to: Option<Date>,
}

/// The character sequences of a list of strings, in order.
pub open spec fn seq_views(ss: Seq<String>) -> Seq<Seq<char>> {
    ss.map_values(|s: String| s@)
}

/// How many of the album's linked names fall in the requested set.  The
/// album's names are unique, so this counts distinct matches.
pub open spec fn matching_name_count(album_names: Seq<Seq<char>>, requested: Seq<Seq<char>>) -> int
    decreases album_names.len(),
{
    if album_names.len() == 0 {
        0
    } else {
        matching_name_count(album_names.drop_last(), requested) + (
        if requested.contains(album_names.last()) {
            1int
        } else {
            0int
        })
    }
}

/// All-of matching: with no requested names nothing is restricted;
/// otherwise the distinct matches must number exactly the requested
/// names, so the album carries every requested tag (a request that
/// repeats a name can never be satisfied).
pub open spec fn all_of_passes(album_names: Seq<Seq<char>>, requested: Seq<Seq<char>>) -> bool {
    requested.len() == 0 || matching_name_count(album_names, requested) == requested.len()
}

/// The inclusive minimum-score filter.
pub open spec fn rating_passes(score: i64, min_rating: Option<i64>) -> bool {
    match min_rating {
        Some(m) => score >= m,
        None => true,
    }
}

/// The inclusive release-date range filter; either bound may be absent.
pub open spec fn date_range_passes(d: Date, since: Option<Date>, to: Option<Date>) -> bool {
    &&& match since {
        Some(s) => date_key(d) >= date_key(s),
        None => true,
    }
    &&& match to {
        Some(t) => date_key(d) <= date_key(t),
        None => true,
    }
}

/// The exact-URL filter; an absent wanted URL restricts nothing.
pub open spec fn url_passes(url: Seq<char>, wanted: Option<String>) -> bool {
    match wanted {
        Some(w) => url == w@,
        None => true,
    }
}

/// One page of an ordered listing: `limit` rows per page, pages numbered
/// from one.  A page past the end is empty, never an error.
pub open spec fn paginate<T>(s: Seq<T>, page: int, limit: int) -> Seq<T> {
    let start = (page - 1) * limit;
    if start < 0 || start >= s.len() {
        Seq::<T>::empty()
    } else if start + limit <= s.len() {
        s.subrange(start, start + limit)
    } else {
        s.subrange(start, s.len() as int)
    }
}

/// Every row of a page is a row of the listing it was cut from.
pub proof fn lemma_paginate_elements<T>(s: Seq<T>, page: int, limit: int)
    requires
        limit >= 0,
    ensures
        forall|k: int|
            0 <= k < paginate(s, page, limit).len() ==> s.contains(
                #[trigger] paginate(s, page, limit)[k],
            ),
{
    let start = (page - 1) * limit;
    let pg = paginate(s, page, limit);
    if start < 0 || start >= s.len() {
        assert(pg.len() == 0);
    } else if start + limit <= s.len() {
        assert(pg == s.subrange(start, start + limit));
        assert forall|k: int| 0 <= k < pg.len() implies s.contains(#[trigger] pg[k]) by {
            assert(s.subrange(start, start + limit)[k] == s[start + k]);
            assert(0 <= start + k < s.len());
            assert(pg[k] == s[start + k]);
        }
    } else {
        assert(pg == s.subrange(start, s.len() as int));
        assert forall|k: int| 0 <= k < pg.len() implies s.contains(#[trigger] pg[k]) by {
            assert(s.subrange(start, s.len() as int)[k] == s[start + k]);
            assert(0 <= start + k < s.len());
            assert(pg[k] == s[start + k]);
        }
    }
}

/// Whether a list of strings holds one with the given characters.
pub fn names_contain(names: &Vec<String>, wanted: &String) -> (r: bool)
    ensures
        r == seq_views(names@).contains(wanted@),
{
    let n = names.len();
    for i in 0..n
        invariant
            n == names@.len(),
            forall|j: int| 0 <= j < i ==> seq_views(names@)[j] != wanted@,
    {
        if names[i].eq(wanted) {
            assert(seq_views(names@)[i as int] == wanted@);
            return true;
        }
    }
    false
}

/// Decides the all-of genre filter for one album, given the names of the
/// genres linked to it.
pub fn apply_genre_filter(album_names: &Vec<String>, genres: &Vec<String>) -> (r: bool)
    ensures
        r == all_of_passes(seq_views(album_names@), seq_views(genres@)),
{
    if genres.len() == 0 {
        return true;
    }
    let count = count_matching(album_names, genres);
    count == genres.len()
}

/// Decides the all-of mood filter for one album, given the names of the
/// moods linked to it.
pub fn apply_mood_filter(album_names: &Vec<String>, moods: &Vec<String>) -> (r: bool)
    ensures
        r == all_of_passes(seq_views(album_names@), seq_views(moods@)),
{
    if moods.len() == 0 {
        return true;
    }
    let count = count_matching(album_names, moods);
    count == moods.len()
}

/// Counts the album names that fall in the requested set.
fn count_matching(album_names: &Vec<String>, requested: &Vec<String>) -> (r: usize)
    ensures
        r as int == matching_name_count(seq_views(album_names@), seq_views(requested@)),
{
    let mut count: usize = 0;
    let n = album_names.len();
    for i in 0..n
        invariant
            n == album_names@.len(),
            count <= i,
            count as int == matching_name_count(
                seq_views(album_names@).take(i as int),
                seq_views(requested@),
            ),
    {
        let hit = names_contain(requested, &album_names[i]);
        proof {
            assert(seq_views(album_names@).take(i as int + 1).drop_last() =~= seq_views(
                album_names@,
            ).take(i as int));
            assert(seq_views(album_names@).take(i as int + 1).last() == album_names@[i as int]@);
        }
        if hit {
            count += 1;
        }
    }
    proof {
        assert(seq_views(album_names@).take(n as int) =~= seq_views(album_names@));
    }
    count
}

/// Decides the minimum-score filter.
pub fn apply_rating_filter(score: i64, min_rating: Option<i64>) -> (r: bool)
    ensures
        r == rating_passes(score, min_rating),
{
    match min_rating {
        Some(m) => score >= m,
        None => true,
    }
}

/// Decides the release-date range filter.
pub fn apply_date_range_filter(d: Date, since: Option<Date>, to: Option<Date>) -> (r: bool)
    ensures
        r == date_range_passes(d, since, to),
{
    let since_ok = match since {
        Some(s) => date_le(&s, &d),
        None => true,
    };
    let to_ok = match to {
        Some(t) => date_le(&d, &t),
        None => true,
    };
    since_ok && to_ok
}

/// Decides the exact-URL filter.
pub fn apply_url_filter(url: &String, wanted: &Option<String>) -> (r: bool)
    ensures
        r == url_passes(url@, *wanted),
{
    match wanted {
        Some(w) => url.eq(w),
        None => true,
    }
}

/// Keeps one page of the ordered album rows.
pub fn apply_pagination(rows: Vec<InsertedAlbum>, page: u64, limit: u64) -> (out: Vec<
    InsertedAlbum,
>)
    ensures
        out@ == paginate(rows@, page as int, limit as int),
{
    let mut out: Vec<InsertedAlbum> = Vec::new();
    if page == 0 {
        proof {
            assert((page as int - 1) * (limit as int) == -(limit as int)) by (nonlinear_arith)
                requires
                    page as int == 0,
            ;
            if limit == 0 && rows@.len() > 0 {
                assert(rows@.subrange(0, 0) =~= Seq::<InsertedAlbum>::empty());
            }
            assert(paginate(rows@, page as int, limit as int) =~= out@);
        }
        return out;
    }
    proof {
        assert((page as u128 - 1) * (limit as u128) < 0xffffffffffffffffffffffffffffffff)
            by (nonlinear_arith)
            requires
                1 <= page as u128 <= 0xffffffffffffffff,
                limit as u128 <= 0xffffffffffffffff,
        ;
    }
    let start_wide: u128 = (page as u128 - 1) * (limit as u128);
    let n = rows.len();
    if start_wide >= n as u128 {
        proof {
            assert(paginate(rows@, page as int, limit as int) =~= out@);
        }
        return out;
    }
    let start = start_wide as usize;
    let stop: usize = if (start_wide + limit as u128) <= n as u128 {
        (start_wide + limit as u128) as usize
    } else {
        n
    };
    proof {
        assert(out@ =~= paginate(rows@, page as int, limit as int).take(0));
    }
    let mut i: usize = start;
    while i < stop
        invariant
            start <= i <= stop <= n,
            n == rows@.len(),
            start == (page as int - 1) * (limit as int),
            stop == if start + limit as int <= n as int {
                start + limit as int
            } else {
                n as int
            },
            page >= 1,
            out@ =~= paginate(rows@, page as int, limit as int).take(i - start),
        decreases stop - i,
    {
        out.push(rows[i].clone());
        proof {
            let pg = paginate(rows@, page as int, limit as int);
            assert(pg[i - start] == rows@[i as int]);
            assert(pg.take(i as int - start).push(pg[i as int - start]) =~= pg.take(
                i as int + 1 - start,
            ));
        }
        i += 1;
    }
    proof {
        let pg = paginate(rows@, page as int, limit as int);
        assert(pg.take(stop - start) =~= pg);
    }
    out
}

} // verus!
