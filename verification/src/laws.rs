use vstd::prelude::*;

use crate::date::Date;
use crate::filters::all_of_passes;
use crate::filters::matching_name_count;
use crate::filters::paginate;
use crate::links::lemma_link_pairs_membership;
use crate::links::lemma_link_pairs_no_dup;
use crate::links::lemma_link_pairs_noop;
use crate::links::link_pairs;
use crate::lookup::album_urls;
use crate::lookup::artist_names;
use crate::lookup::find_first;
use crate::lookup::genre_names;
use crate::lookup::lemma_find_first;
use crate::lookup::lemma_find_first_complete;
use crate::tracks::insert_tracks_spec;
use crate::tracks::lemma_insert_tracks_shape;
use crate::tracks::other_album_tracks;
use crate::types::Artist;
use crate::types::Genre;
use crate::types::InsertedAlbum;
use crate::types::NewAlbum;
use crate::types::NewArtist;
use crate::types::NewTrack;
use crate::types::TrackRow;
use crate::writes::lemma_map_values_push;
use crate::writes::lemma_map_values_update;
use crate::writes::resolve_artist_spec;
use crate::writes::resolve_genre_spec;
use crate::writes::scalar_row_spec;
use crate::writes::upsert_album_spec;

verus! {

/// How many entries of `s` equal `x`.
pub open spec fn count_eq<T>(s: Seq<T>, x: T) -> int
    decreases s.len(),
{
    if s.len() == 0 {
        0
    } else {
        count_eq(s.drop_last(), x) + (
        if s.last() == x {
            1int
        } else {
            0int
        })
    }
}

/// In a duplicate-free sequence a value occurs once or not at all.
pub proof fn lemma_no_dup_count_eq<T>(s: Seq<T>, x: T)
    requires
        s.no_duplicates(),
    ensures
        count_eq(s, x) == if s.contains(x) {
            1int
        } else {
            0int
        },
    decreases s.len(),
{
    broadcast use vstd::seq_lib::group_seq_properties;

    if s.len() > 0 {
        let dl = s.drop_last();
        assert forall|i: int, j: int|
            0 <= i < dl.len() && 0 <= j < dl.len() && i != j implies dl[i] != dl[j] by {
            assert(s[i] == dl[i]);
            assert(s[j] == dl[j]);
        }
        lemma_no_dup_count_eq(dl, x);
        assert(dl.push(s.last()) =~= s);
        if s.last() == x {
            assert(!dl.contains(x)) by {
                if dl.contains(x) {
                    let w = choose|w: int| 0 <= w < dl.len() && dl[w] == x;
                    assert(s[w] == s[s.len() - 1]);
                }
            }
        }
        assert(s.contains(x) <==> (dl.contains(x) || s.last() == x)) by {
            if s.contains(x) {
                let w = choose|w: int| 0 <= w < s.len() && s[w] == x;
                if w < s.len() - 1 {
                    assert(dl[w] == x);
                }
            }
            if dl.contains(x) {
                let w = choose|w: int| 0 <= w < dl.len() && dl[w] == x;
                assert(s[w] == x);
            }
        }
    }
}

/// Idempotent resolution: resolving the same genre name twice, with any
/// fresh ids on hand, yields the same row id both times, leaves the table
/// unchanged after the first resolution, and leaves exactly one row with
/// that name.
pub proof fn lemma_resolution_idempotent(gs: Seq<Genre>, n1: String, n2: String, f1: u128, f2: u128)
    requires
        genre_names(gs).no_duplicates(),
        n1@ == n2@,
    ensures
        ({
            let r1 = resolve_genre_spec(gs, n1, f1);
            let r2 = resolve_genre_spec(r1.0, n2, f2);
            &&& r2.1.id == r1.1.id
            &&& r2.0 == r1.0
            &&& r1.0.len() <= gs.len() + 1
            &&& count_eq(genre_names(r1.0), n1@) == 1
        }),
{
    lemma_find_first(genre_names(gs), n1@);
    match find_first(genre_names(gs), n1@) {
        Some(i) => {
            let r1 = resolve_genre_spec(gs, n1, f1);
            assert(r1.0 == gs && r1.1 == gs[i]);
            lemma_no_dup_count_eq(genre_names(gs), n1@);
            assert(genre_names(gs)[i] == n1@);
            assert(genre_names(gs).contains(n1@));
        },
        None => {
            let row = Genre { id: f1, name: n1 };
            let r1 = resolve_genre_spec(gs, n1, f1);
            assert(r1.0 == gs.push(row) && r1.1 == row);
            lemma_map_values_push(gs, row, |g: Genre| g.name@);
            let names1 = genre_names(gs).push(n1@);
            assert(genre_names(r1.0) =~= names1);
            assert(names1[gs.len() as int] == n1@);
            lemma_find_first_complete(names1, n2@, gs.len() as int);
            assert(resolve_genre_spec(r1.0, n2, f2) == (r1.0, r1.0[gs.len() as int]));
            assert(r1.0[gs.len() as int] == row);
            crate::catalog::lemma_push_no_dup(genre_names(gs), n1@);
            lemma_no_dup_count_eq(names1, n1@);
            assert(names1.contains(n1@)) by {
                assert(names1[gs.len() as int] == n1@);
            }
        },
    }
}

/// Idempotent artist resolution: a repeated name keeps its id and adds no
/// second row; the localized name is refreshed from the later request.
pub proof fn lemma_artist_resolution_idempotent(
    ars: Seq<Artist>,
    n1: NewArtist,
    n2: NewArtist,
    f1: u128,
    f2: u128,
)
    requires
        artist_names(ars).no_duplicates(),
        n1.name@ == n2.name@,
    ensures
        ({
            let r1 = resolve_artist_spec(ars, n1, f1);
            let r2 = resolve_artist_spec(r1.0, n2, f2);
            &&& r2.1.id == r1.1.id
            &&& r2.0.len() == r1.0.len()
            &&& r2.1.localized_name == n2.localized_name
        }),
{
    lemma_find_first(artist_names(ars), n1.name@);
    match find_first(artist_names(ars), n1.name@) {
        Some(i) => {
            let r1 = resolve_artist_spec(ars, n1, f1);
            let row1 = Artist { id: ars[i].id, name: ars[i].name, localized_name: n1.localized_name };
            assert(r1.0 == ars.update(i, row1) && r1.1 == row1);
            lemma_map_values_update(ars, i, row1, |a: Artist| a.name@);
            assert(artist_names(r1.0) =~= artist_names(ars));
            lemma_find_first(artist_names(r1.0), n2.name@);
            match find_first(artist_names(r1.0), n2.name@) {
                Some(k) => {
                    assert(artist_names(ars)[k] == n2.name@);
                    assert(k == i) by {
                        lemma_find_first(artist_names(ars), n1.name@);
                        if k < i {
                            assert(artist_names(ars)[k] != n1.name@);
                        }
                        if i < k {
                            assert(artist_names(r1.0)[i] == n1.name@);
                            assert(forall|j: int|
                                0 <= j < k ==> artist_names(r1.0)[j] != n2.name@);
                        }
                    }
                    assert(r1.0[i] == row1);
                },
                None => {
                    assert(artist_names(r1.0)[i] == n1.name@);
                },
            }
        },
        None => {
            let row1 = Artist { id: f1, name: n1.name, localized_name: n1.localized_name };
            let r1 = resolve_artist_spec(ars, n1, f1);
            assert(r1.0 == ars.push(row1) && r1.1 == row1);
            lemma_map_values_push(ars, row1, |a: Artist| a.name@);
            let names1 = artist_names(ars).push(n1.name@);
            assert(artist_names(r1.0) =~= names1);
            assert(names1[ars.len() as int] == n1.name@);
            lemma_find_first_complete(names1, n2.name@, ars.len() as int);
            assert(r1.0[ars.len() as int] == row1);
        },
    }
}

/// Idempotent linking: asserting a pair twice leaves the junction table
/// exactly as one assertion leaves it, with exactly one row for the pair.
pub proof fn lemma_linking_idempotent(j: Seq<(u128, u128)>, album_id: u128, entity_id: u128)
    requires
        j.no_duplicates(),
    ensures
        ({
            let j1 = link_pairs(j, album_id, seq![entity_id]);
            let j2 = link_pairs(j1, album_id, seq![entity_id]);
            &&& j2 == j1
            &&& count_eq(j1, (album_id, entity_id)) == 1
        }),
{
    let ids = seq![entity_id];
    let j1 = link_pairs(j, album_id, ids);
    lemma_link_pairs_membership(j, album_id, ids, (album_id, entity_id));
    assert(ids.contains(entity_id)) by {
        assert(ids[0] == entity_id);
    }
    assert(j1.contains((album_id, entity_id)));
    assert forall|k: int| 0 <= k < ids.len() implies j1.contains(
        (album_id, #[trigger] ids[k]),
    ) by {
        assert(ids[k] == entity_id);
    }
    lemma_link_pairs_noop(j1, album_id, ids);
    lemma_link_pairs_no_dup(j, album_id, ids);
    lemma_no_dup_count_eq(j1, (album_id, entity_id));
}

/// Linking any set of pairs twice is the same as linking it once.
pub proof fn lemma_link_pairs_idempotent(j: Seq<(u128, u128)>, album_id: u128, ids: Seq<u128>)
    ensures
        link_pairs(link_pairs(j, album_id, ids), album_id, ids) == link_pairs(j, album_id, ids),
{
    let j1 = link_pairs(j, album_id, ids);
    assert forall|k: int| 0 <= k < ids.len() implies j1.contains(
        (album_id, #[trigger] ids[k]),
    ) by {
        lemma_link_pairs_membership(j, album_id, ids, (album_id, ids[k]));
    }
    lemma_link_pairs_noop(j1, album_id, ids);
}

/// Upsert by URL: registering the same URL twice leaves exactly one album
/// row with that URL; the row keeps the id the first registration gave
/// it, every scalar field comes from the second registration, and the
/// modification date is the second write's date.
pub proof fn lemma_upsert_by_url(
    als: Seq<InsertedAlbum>,
    n1: NewAlbum,
    n2: NewAlbum,
    f1: u128,
    f2: u128,
    d1: Date,
    d2: Date,
)
    requires
        album_urls(als).no_duplicates(),
        n1.url@ == n2.url@,
    ensures
        ({
            let u1 = upsert_album_spec(als, n1, f1, d1);
            let u2 = upsert_album_spec(u1.0, n2, f2, d2);
            &&& u2.1.id == u1.1.id
            &&& u2.1 == scalar_row_spec(n2, u1.1.id, d2)
            &&& u2.0.len() == u1.0.len()
            &&& count_eq(album_urls(u2.0), n1.url@) == 1
        }),
{
    lemma_find_first(album_urls(als), n1.url@);
    match find_first(album_urls(als), n1.url@) {
        Some(i) => {
            let row1 = scalar_row_spec(n1, als[i].id, d1);
            let u1 = upsert_album_spec(als, n1, f1, d1);
            assert(u1.0 == als.update(i, row1) && u1.1 == row1);
            lemma_map_values_update(als, i, row1, |a: InsertedAlbum| a.url@);
            assert(album_urls(als)[i] == n1.url@);
            assert(album_urls(u1.0) =~= album_urls(als));
            lemma_find_first_complete(album_urls(u1.0), n2.url@, i);
            let row2 = scalar_row_spec(n2, u1.0[i].id, d2);
            assert(u1.0[i] == row1);
            assert(row1.id == als[i].id);
            let u2 = upsert_album_spec(u1.0, n2, f2, d2);
            assert(u2.0 == u1.0.update(i, row2) && u2.1 == row2);
            lemma_map_values_update(u1.0, i, row2, |a: InsertedAlbum| a.url@);
            assert(album_urls(u2.0) =~= album_urls(als));
            lemma_no_dup_count_eq(album_urls(u2.0), n1.url@);
            assert(album_urls(u2.0).contains(n1.url@)) by {
                assert(album_urls(u2.0)[i] == n1.url@);
            }
        },
        None => {
            let row1 = scalar_row_spec(n1, f1, d1);
            let u1 = upsert_album_spec(als, n1, f1, d1);
            assert(u1.0 == als.push(row1) && u1.1 == row1);
            lemma_map_values_push(als, row1, |a: InsertedAlbum| a.url@);
            let urls1 = album_urls(als).push(n1.url@);
            assert(album_urls(u1.0) =~= urls1);
            assert(urls1[als.len() as int] == n1.url@);
            lemma_find_first_complete(urls1, n2.url@, als.len() as int);
            let row2 = scalar_row_spec(n2, u1.0[als.len() as int].id, d2);
            assert(u1.0[als.len() as int] == row1);
            let u2 = upsert_album_spec(u1.0, n2, f2, d2);
            assert(u2.0 == u1.0.update(als.len() as int, row2) && u2.1 == row2);
            lemma_map_values_update(u1.0, als.len() as int, row2, |a: InsertedAlbum| a.url@);
            assert(album_urls(u2.0) =~= urls1);
            crate::catalog::lemma_push_no_dup(album_urls(als), n1.url@);
            lemma_no_dup_count_eq(urls1, n1.url@);
            assert(urls1.contains(n1.url@)) by {
                assert(urls1[als.len() as int] == n1.url@);
            }
        },
    }
}

/// The tracks of one album, in table order.
pub open spec fn album_tracks_in(ts: Seq<TrackRow>, album_id: u128) -> Seq<TrackRow> {
    ts.filter(|t: TrackRow| t.album_id == album_id)
}

/// A filter that every element satisfies keeps the sequence whole.
pub proof fn lemma_filter_all_true<T>(s: Seq<T>, pred: spec_fn(T) -> bool)
    requires
        forall|i: int| 0 <= i < s.len() ==> pred(#[trigger] s[i]),
    ensures
        s.filter(pred) == s,
    decreases s.len(),
{
    reveal(Seq::filter);
    if s.len() == 0 {
        assert(s.filter(pred) =~= s);
    } else {
        let dl = s.drop_last();
        assert forall|i: int| 0 <= i < dl.len() implies pred(#[trigger] dl[i]) by {
            assert(dl[i] == s[i]);
        }
        lemma_filter_all_true(dl, pred);
        assert(pred(s.last()));
        assert(s.filter(pred) == dl.filter(pred).push(s.last()));
        assert(dl.push(s.last()) =~= s);
    }
}

/// A filter that no element satisfies leaves nothing.
pub proof fn lemma_filter_all_false<T>(s: Seq<T>, pred: spec_fn(T) -> bool)
    requires
        forall|i: int| 0 <= i < s.len() ==> !pred(#[trigger] s[i]),
    ensures
        s.filter(pred) == Seq::<T>::empty(),
    decreases s.len(),
{
    reveal(Seq::filter);
    if s.len() == 0 {
        assert(s.filter(pred) =~= Seq::<T>::empty());
    } else {
        let dl = s.drop_last();
        assert forall|i: int| 0 <= i < dl.len() implies !pred(#[trigger] dl[i]) by {
            assert(dl[i] == s[i]);
        }
        lemma_filter_all_false(dl, pred);
        assert(!pred(s.last()));
    }
}

/// Track replacement: after replacing an album's tracks and then
/// replacing them again, the album's stored tracks are exactly the rows
/// of the second listing — nothing of the first listing survives — and
/// the tracks of every other album are exactly what they were at the
/// start.
pub proof fn lemma_track_replacement(
    ts: Seq<TrackRow>,
    ars1: Seq<Artist>,
    f1: u128,
    ars2: Seq<Artist>,
    f2: u128,
    album_id: u128,
    l1: Seq<NewTrack>,
    l2: Seq<NewTrack>,
)
    ensures
        ({
            let rows1 = insert_tracks_spec(ars1, f1, album_id, l1).2;
            let t1 = other_album_tracks(ts, album_id) + rows1;
            let rows2 = insert_tracks_spec(ars2, f2, album_id, l2).2;
            let t2 = other_album_tracks(t1, album_id) + rows2;
            &&& album_tracks_in(t2, album_id) == rows2
            &&& other_album_tracks(t2, album_id) == other_album_tracks(ts, album_id)
        }),
{
    broadcast use vstd::seq_lib::group_filter_ensures;

    let keep = |t: TrackRow| t.album_id != album_id;
    let own = |t: TrackRow| t.album_id == album_id;
    let base = other_album_tracks(ts, album_id);
    let rows1 = insert_tracks_spec(ars1, f1, album_id, l1).2;
    let rows2 = insert_tracks_spec(ars2, f2, album_id, l2).2;
    let t1 = base + rows1;
    lemma_insert_tracks_shape(ars1, f1, album_id, l1);
    lemma_insert_tracks_shape(ars2, f2, album_id, l2);
    assert forall|i: int| 0 <= i < base.len() implies keep(#[trigger] base[i]) by {}
    Seq::filter_distributes_over_add(base, rows1, keep);
    lemma_filter_all_true(base, keep);
    lemma_filter_all_false(rows1, keep);
    assert(other_album_tracks(t1, album_id) =~= base);
    let t2 = other_album_tracks(t1, album_id) + rows2;
    assert(t2 =~= base + rows2);
    Seq::filter_distributes_over_add(base, rows2, own);
    lemma_filter_all_false(base, own);
    lemma_filter_all_true(rows2, own);
    assert(album_tracks_in(t2, album_id) =~= rows2);
    Seq::filter_distributes_over_add(base, rows2, keep);
    lemma_filter_all_true(base, keep);
    lemma_filter_all_false(rows2, keep);
    assert(other_album_tracks(t2, album_id) =~= base);
}

/// Relates the distinct-match count to set cardinality: with unique album
/// names it is the size of the intersection of the two name sets.
pub proof fn lemma_matching_count_is_set(album: Seq<Seq<char>>, requested: Seq<Seq<char>>)
    requires
        album.no_duplicates(),
    ensures
        matching_name_count(album, requested) == album.to_set().intersect(
            requested.to_set(),
        ).len(),
    decreases album.len(),
{
    broadcast use vstd::set::group_set_axioms;
    broadcast use vstd::seq_lib::group_seq_properties;
    broadcast use vstd::seq_lib::seq_to_set_is_finite;

    if album.len() == 0 {
        assert(album.to_set() =~= Set::<Seq<char>>::empty());
        assert(album.to_set().intersect(requested.to_set()) =~= Set::<Seq<char>>::empty());
    } else {
        let dl = album.drop_last();
        let x = album.last();
        assert forall|i: int, j: int|
            0 <= i < dl.len() && 0 <= j < dl.len() && i != j implies dl[i] != dl[j] by {
            assert(album[i] == dl[i]);
            assert(album[j] == dl[j]);
        }
        lemma_matching_count_is_set(dl, requested);
        assert(!dl.contains(x)) by {
            if dl.contains(x) {
                let w = choose|w: int| 0 <= w < dl.len() && dl[w] == x;
                assert(album[w] == album[album.len() - 1]);
            }
        }
        assert(dl.push(x) =~= album);
        assert(album.to_set() =~= dl.to_set().insert(x)) by {
            assert forall|y: Seq<char>| album.contains(y) implies (dl.contains(y) || y == x) by {
                let w = choose|w: int| 0 <= w < album.len() && album[w] == y;
                if w < album.len() - 1 {
                    assert(dl[w] == y);
                }
            }
            assert forall|y: Seq<char>| dl.contains(y) implies album.contains(y) by {
                let w = choose|w: int| 0 <= w < dl.len() && dl[w] == y;
                assert(album[w] == y);
            }
            assert(album.contains(x)) by {
                assert(album[album.len() - 1] == x);
            }
        }
        let s1 = dl.to_set().intersect(requested.to_set());
        let s2 = album.to_set().intersect(requested.to_set());
        assert(s1.finite());
        if requested.contains(x) {
            assert(requested.to_set().contains(x));
            assert(s2 =~= s1.insert(x));
            assert(!s1.contains(x));
            vstd::set::axiom_set_insert_len(s1, x);
        } else {
            assert(!requested.to_set().contains(x));
            assert(s2 =~= s1);
        }
    }
}

/// All-of filtering: with unique names on both sides, an album passes the
/// filter exactly when it carries every requested name.
pub proof fn lemma_all_of_filter(album: Seq<Seq<char>>, requested: Seq<Seq<char>>)
    requires
        album.no_duplicates(),
        requested.no_duplicates(),
    ensures
        all_of_passes(album, requested) <==> (forall|r: Seq<char>|
            requested.contains(r) ==> album.contains(r)),
{
    broadcast use vstd::set::group_set_axioms;
    broadcast use vstd::seq_lib::seq_to_set_is_finite;

    lemma_matching_count_is_set(album, requested);
    requested.unique_seq_to_set();
    let inter = album.to_set().intersect(requested.to_set());
    let rset = requested.to_set();
    if forall|r: Seq<char>| requested.contains(r) ==> album.contains(r) {
        assert(inter =~= rset);
        assert(matching_name_count(album, requested) == requested.len());
    } else {
        let r = choose|r: Seq<char>| requested.contains(r) && !album.contains(r);
        assert(requested.len() > 0) by {
            let w = choose|w: int| 0 <= w < requested.len() && requested[w] == r;
        }
        assert(inter.subset_of(rset.remove(r)));
        assert(rset.remove(r).finite());
        vstd::set_lib::lemma_len_subset(inter, rset.remove(r));
        assert(rset.contains(r));
        vstd::set::axiom_set_remove_len(rset, r);
        assert(matching_name_count(album, requested) <= requested.len() - 1);
        assert(!all_of_passes(album, requested));
    }
}

/// Pagination: pages are `limit` rows starting at row `(page-1)*limit` of
/// the ordered listing; a page past the end is empty, not an error.
pub proof fn lemma_pagination<T>(s: Seq<T>, page: int, limit: int)
    requires
        page >= 1,
        limit >= 0,
    ensures
        paginate(s, page, limit).len() <= limit,
        (page - 1) * limit >= s.len() ==> paginate(s, page, limit) == Seq::<T>::empty(),
        forall|k: int|
            0 <= k < paginate(s, page, limit).len() ==> #[trigger] paginate(s, page, limit)[k]
                == s[(page - 1) * limit + k],
{
    assert((page - 1) * limit >= 0) by (nonlinear_arith)
        requires
            page >= 1,
            limit >= 0,
    ;
    let start = (page - 1) * limit;
    let pg = paginate(s, page, limit);
    if start >= s.len() {
        assert(pg == Seq::<T>::empty());
    } else if start + limit <= s.len() {
        assert(pg == s.subrange(start, start + limit));
        assert forall|k: int| 0 <= k < pg.len() implies #[trigger] pg[k] == s[start + k] by {
            assert(s.subrange(start, start + limit)[k] == s[start + k]);
        }
    } else {
        assert(pg == s.subrange(start, s.len() as int));
        assert forall|k: int| 0 <= k < pg.len() implies #[trigger] pg[k] == s[start + k] by {
            assert(s.subrange(start, s.len() as int)[k] == s[start + k]);
        }
    }
}

} // verus!
